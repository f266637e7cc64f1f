//! The render graph as a mathematical value: its nodes, its connections,
//! and what it means to change them.

use vstd::prelude::*;
use crate::mixing::ChannelConfig;
use crate::render::order::{ascending, closes_cycle, joins, processing_order, Edge, NodeId};
use crate::render::reach::heard;

verus! {

/// The identifier of a parameter of a node.
#[derive(Clone, Copy, Debug, PartialEq, Eq, Hash, Structural)]
pub struct ParamId(pub u64);

/// A connection by which an output of one node modulates a parameter of
/// another. Such a connection carries data but orders nothing.
#[derive(Clone, Copy, Debug, PartialEq, Eq, Hash, Structural)]
pub struct ParamEdge {
    pub source: NodeId,
    pub output: usize,
    pub owner: NodeId,
    pub param: ParamId,
}

/// What the graph knows of a node besides its identifier.
#[derive(Clone, Copy, Debug)]
pub struct NodeShape {
    /// Number of inputs.
    pub inputs: usize,
    /// Number of outputs.
    pub outputs: usize,
    /// Channel configuration of the inputs.
    pub config: ChannelConfig,
    /// Whether the node is a terminal destination of the graph.
    pub sink: bool,
}

/// What changes in the life of a node while the graph is rendered.
#[derive(Clone, Copy, Debug, PartialEq, Eq, Structural)]
pub struct NodeLife {
    /// The control thread has let go of the node: it may be retired once
    /// nothing can be heard of it any more.
    pub released: bool,
    /// The node asked, when it was last processed, to be processed again
    /// even without input.
    pub tail: bool,
}

/// The life of a node that was just added.
pub open spec fn newborn() -> NodeLife {
    NodeLife { released: false, tail: false }
}

/// A parameter connection as a carrier of data from node to node.
pub open spec fn carrier(p: ParamEdge) -> Edge {
    Edge { source: p.source, output: p.output, destination: p.owner, input: 0 }
}

/// The audio connections followed by the parameter connections, each as a
/// carrier of data from node to node.
pub open spec fn carry(edges: Seq<Edge>, params: Seq<ParamEdge>) -> Seq<Edge> {
    edges + params.map_values(|p: ParamEdge| carrier(p))
}

/// The graph as a mathematical value.
#[verifier::ext_equal]
pub struct GraphView {
    /// The identifiers of the nodes, ascending.
    pub nodes: Seq<NodeId>,
    /// The shape of each node, in the order of `nodes`.
    pub shapes: Seq<NodeShape>,
    /// The life of each node, in the order of `nodes`.
    pub lives: Seq<NodeLife>,
    /// The audio connections, in the order in which they were made.
    pub edges: Seq<Edge>,
    /// The parameter connections, in the order in which they were made.
    pub param_edges: Seq<ParamEdge>,
    /// The identifier that the next node gets.
    pub next: u64,
}

/// Holds of every connection but `e`.
pub open spec fn other_than(e: Edge) -> spec_fn(Edge) -> bool {
    |x: Edge| x != e
}

/// Holds of the connections that do not touch node `id`.
pub open spec fn apart_from(id: NodeId) -> spec_fn(Edge) -> bool {
    |x: Edge| x.source != id && x.destination != id
}

/// Holds of the connections that end at input `input` of node `node`.
pub open spec fn into(node: NodeId, input: usize) -> spec_fn(Edge) -> bool {
    |x: Edge| x.destination == node && x.input == input
}

/// Holds of every parameter connection but `p`.
pub open spec fn param_other_than(p: ParamEdge) -> spec_fn(ParamEdge) -> bool {
    |x: ParamEdge| x != p
}

/// Holds of the parameter connections that do not touch node `id`.
pub open spec fn param_apart_from(id: NodeId) -> spec_fn(ParamEdge) -> bool {
    |x: ParamEdge| x.source != id && x.owner != id
}

/// The connections other than `e`.
pub open spec fn without_edge(edges: Seq<Edge>, e: Edge) -> Seq<Edge> {
    edges.filter(other_than(e))
}

/// The connections that do not touch node `id`.
pub open spec fn clear_of(edges: Seq<Edge>, id: NodeId) -> Seq<Edge> {
    edges.filter(apart_from(id))
}

/// The parameter connections other than `p`.
pub open spec fn without_param_edge(edges: Seq<ParamEdge>, p: ParamEdge) -> Seq<ParamEdge> {
    edges.filter(param_other_than(p))
}

/// The parameter connections that do not touch node `id`.
pub open spec fn params_clear_of(edges: Seq<ParamEdge>, id: NodeId) -> Seq<ParamEdge> {
    edges.filter(param_apart_from(id))
}

/// The connections that end at input `input` of node `node`, in the order
/// in which they were made.
pub open spec fn feeding(edges: Seq<Edge>, node: NodeId, input: usize) -> Seq<Edge> {
    edges.filter(into(node, input))
}

impl GraphView {
    /// The graph without nodes.
    pub open spec fn empty() -> GraphView {
        GraphView {
            nodes: Seq::empty(),
            shapes: Seq::empty(),
            lives: Seq::empty(),
            edges: Seq::empty(),
            param_edges: Seq::empty(),
            next: 0,
        }
    }

    /// The shape of node `id`.
    pub open spec fn shape(self, id: NodeId) -> NodeShape {
        self.shapes[self.nodes.index_of(id)]
    }

    /// The life of node `id`.
    pub open spec fn life(self, id: NodeId) -> NodeLife {
        self.lives[self.nodes.index_of(id)]
    }

    /// Both endpoints of `e` exist: the nodes are in the graph, the source
    /// has the output and the destination has the input.
    pub open spec fn routable(self, e: Edge) -> bool {
        &&& self.nodes.contains(e.source)
        &&& self.nodes.contains(e.destination)
        &&& e.output < self.shape(e.source).outputs
        &&& e.input < self.shape(e.destination).inputs
    }

    /// Both endpoints of `p` exist: the nodes are in the graph and the
    /// source has the output.
    pub open spec fn modulable(self, p: ParamEdge) -> bool {
        &&& self.nodes.contains(p.source)
        &&& self.nodes.contains(p.owner)
        &&& p.output < self.shape(p.source).outputs
    }

    /// What holds of every graph: identifiers ascend and are below the
    /// next one; no connection is made twice; no connection dangles.
    pub open spec fn valid(self) -> bool {
        &&& ascending(self.nodes)
        &&& self.shapes.len() == self.nodes.len()
        &&& self.lives.len() == self.nodes.len()
        &&& forall|i: int| 0 <= i < self.nodes.len() ==> (#[trigger] self.nodes[i]).0 < self.next
        &&& self.edges.no_duplicates()
        &&& forall|k: int| 0 <= k < self.edges.len() ==> self.routable(#[trigger] self.edges[k])
        &&& self.param_edges.no_duplicates()
        &&& forall|k: int| 0 <= k < self.param_edges.len() ==> self.modulable(#[trigger] self.param_edges[k])
    }

    /// The order in which the nodes are processed in each quantum.
    pub open spec fn order(self) -> Seq<NodeId> {
        processing_order(self.nodes, self.edges)
    }

    /// For each connection, whether it closes a cycle.
    pub open spec fn closing(self) -> Seq<bool> {
        Seq::new(self.edges.len(), |k: int| closes_cycle(self.edges, k))
    }

    /// Every connection that carries data, of either kind.
    pub open spec fn carriers(self) -> Seq<Edge> {
        carry(self.edges, self.param_edges)
    }

    /// Holds of the nodes that can be retired.
    pub open spec fn can_retire(self) -> spec_fn(NodeId) -> bool {
        |v: NodeId| self.retirable(v)
    }

    /// The nodes that can be retired, ascending.
    pub open spec fn retiring(self) -> Seq<NodeId> {
        self.nodes.filter(self.can_retire())
    }

    /// The graph without the nodes `gone` and without the connections
    /// that touch them.
    pub open spec fn without_nodes(self, gone: Seq<NodeId>) -> GraphView
        decreases gone.len(),
    {
        if gone.len() == 0 {
            self
        } else {
            self.without_nodes(gone.drop_last()).without_node(gone.last())
        }
    }

    /// The graph with no node asking for further processing.
    pub open spec fn with_tails_cleared(self) -> GraphView {
        GraphView {
            lives: Seq::new(self.lives.len(), |i: int| NodeLife { released: self.lives[i].released, tail: false }),
            ..self
        }
    }

    /// For each node, whether it is a terminal destination.
    pub open spec fn sinks(self) -> Seq<bool> {
        Seq::new(self.shapes.len(), |i: int| self.shapes[i].sink)
    }

    /// Some path of connections leads from `v` to a terminal destination.
    pub open spec fn audible(self, v: NodeId) -> bool {
        heard(self.nodes, self.sinks(), self.carriers(), v)
    }

    /// Some audio connection ends at `v`.
    pub open spec fn fed(self, v: NodeId) -> bool {
        exists|k: int| 0 <= k < self.edges.len() && (#[trigger] self.edges[k]).destination == v
    }

    /// Node `v` can be retired: the control thread has let go of it, it
    /// asked for no further processing, nothing is connected to its
    /// inputs, and nothing of it can be heard.
    pub open spec fn retirable(self, v: NodeId) -> bool {
        &&& self.nodes.contains(v)
        &&& self.life(v).released
        &&& !self.life(v).tail
        &&& !self.fed(v)
        &&& !self.audible(v)
    }

    /// The graph with the life of node `id` replaced; unchanged if it has
    /// no such node.
    pub open spec fn with_life(self, id: NodeId, life: NodeLife) -> GraphView {
        if self.nodes.contains(id) {
            GraphView { lives: self.lives.update(self.nodes.index_of(id), life), ..self }
        } else {
            self
        }
    }

    /// The graph with one more node of the given shape.
    pub open spec fn with_node(self, shape: NodeShape) -> GraphView {
        GraphView {
            nodes: self.nodes.push(NodeId(self.next)),
            shapes: self.shapes.push(shape),
            lives: self.lives.push(newborn()),
            next: (self.next + 1) as u64,
            ..self
        }
    }

    /// The graph with `e` connected; unchanged if it already is.
    pub open spec fn with_edge(self, e: Edge) -> GraphView {
        if self.edges.contains(e) {
            self
        } else {
            GraphView { edges: self.edges.push(e), ..self }
        }
    }

    /// The graph with `e` disconnected.
    pub open spec fn without_edge(self, e: Edge) -> GraphView {
        GraphView { edges: without_edge(self.edges, e), ..self }
    }

    /// The graph with `p` connected; unchanged if it already is.
    pub open spec fn with_param_edge(self, p: ParamEdge) -> GraphView {
        if self.param_edges.contains(p) {
            self
        } else {
            GraphView { param_edges: self.param_edges.push(p), ..self }
        }
    }

    /// The graph with `p` disconnected.
    pub open spec fn without_param_edge(self, p: ParamEdge) -> GraphView {
        GraphView { param_edges: without_param_edge(self.param_edges, p), ..self }
    }

    /// The graph without node `id` and without the connections that touch
    /// it; unchanged if it has no such node.
    pub open spec fn without_node(self, id: NodeId) -> GraphView {
        if self.nodes.contains(id) {
            GraphView {
                nodes: self.nodes.remove(self.nodes.index_of(id)),
                shapes: self.shapes.remove(self.nodes.index_of(id)),
                lives: self.lives.remove(self.nodes.index_of(id)),
                edges: clear_of(self.edges, id),
                param_edges: params_clear_of(self.param_edges, id),
                next: self.next,
            }
        } else {
            self
        }
    }
}

/// In a valid graph every connection joins two of its nodes.
pub proof fn lemma_valid_joins(g: GraphView)
    requires
        g.valid(),
    ensures
        joins(g.nodes, g.edges),
{
}

/// Where identifiers ascend, the position of a node is the only one at
/// which it stands.
pub proof fn lemma_position(nodes: Seq<NodeId>, i: int)
    requires
        ascending(nodes),
        0 <= i < nodes.len(),
    ensures
        nodes.index_of(nodes[i]) == i,
{
}

/// Filtering keeps a sequence free of repetition, keeps only its members,
/// and keeps every member that passes.
pub proof fn lemma_filtered<T>(s: Seq<T>, keep: spec_fn(T) -> bool)
    ensures
        forall|x: T| s.filter(keep).contains(x) <==> s.contains(x) && keep(x),
        s.no_duplicates() ==> s.filter(keep).no_duplicates(),
    decreases s.len(),
{
    reveal(Seq::filter);
    if s.len() > 0 {
        let front = s.drop_last();
        let last = s.last();
        lemma_filtered(front, keep);
        let f = front.filter(keep);
        let g = s.filter(keep);
        assert forall|x: T| g.contains(x) <==> s.contains(x) && keep(x) by {
            if g.contains(x) {
                let i = choose|i: int| 0 <= i < g.len() && g[i] == x;
                if i < f.len() {
                    assert(front.contains(x));
                }
            }
        }
        if s.no_duplicates() {
            if keep(last) {
                assert(!front.contains(last));
                assert forall|i: int, j: int| 0 <= i < g.len() && 0 <= j < g.len() && i != j implies g[i]
                    != g[j] by {
                    if i == f.len() {
                        assert(f.contains(g[j]));
                    } else if j == f.len() {
                        assert(f.contains(g[i]));
                    }
                }
            }
        }
    }
}

/// Filtering leaves nothing where no member passes.
pub proof fn lemma_filter_none<T>(s: Seq<T>, keep: spec_fn(T) -> bool)
    requires
        forall|i: int| 0 <= i < s.len() ==> !keep(#[trigger] s[i]),
    ensures
        s.filter(keep) == Seq::<T>::empty(),
    decreases s.len(),
{
    reveal(Seq::filter);
    if s.len() > 0 {
        lemma_filter_none(s.drop_last(), keep);
    }
}

/// Filtering changes nothing where every member passes.
pub proof fn lemma_filter_all<T>(s: Seq<T>, keep: spec_fn(T) -> bool)
    requires
        forall|i: int| 0 <= i < s.len() ==> keep(#[trigger] s[i]),
    ensures
        s.filter(keep) == s,
    decreases s.len(),
{
    reveal(Seq::filter);
    if s.len() > 0 {
        lemma_filter_all(s.drop_last(), keep);
    }
}

/// The identifier that the next node gets is new: it names no node of the
/// graph and stands in no connection. Removing a node does not bring its
/// identifier back, so no identifier is handed out twice.
pub proof fn lemma_identifiers_are_new(g: GraphView, id: NodeId, shape: NodeShape)
    requires
        g.valid(),
    ensures
        !g.nodes.contains(NodeId(g.next)),
        forall|k: int|
            0 <= k < g.edges.len() ==> (#[trigger] g.edges[k]).source != NodeId(g.next) && g.edges[k].destination
                != NodeId(g.next),
        forall|k: int|
            0 <= k < g.param_edges.len() ==> (#[trigger] g.param_edges[k]).source != NodeId(g.next)
                && g.param_edges[k].owner != NodeId(g.next),
        g.without_node(id).next == g.next,
        g.next < u64::MAX ==> g.with_node(shape).next > g.next,
{
}

/// The connection from output `output` of `source` to input `input` of
/// `destination`.
pub open spec fn edge(source: NodeId, output: usize, destination: NodeId, input: usize) -> Edge {
    Edge { source, output, destination, input }
}

/// The connection from output `output` of `source` to parameter `param` of
/// `owner`.
pub open spec fn param_edge(source: NodeId, output: usize, owner: NodeId, param: ParamId) -> ParamEdge {
    ParamEdge { source, output, owner, param }
}

/// Adding a node leaves the shapes of the others as they were.
pub proof fn lemma_shape_after_add(g: GraphView, shape: NodeShape, id: NodeId)
    requires
        g.valid(),
        g.next < u64::MAX,
        g.nodes.contains(id),
    ensures
        g.with_node(shape).nodes.contains(id),
        g.with_node(shape).shape(id) == g.shape(id),
        ascending(g.with_node(shape).nodes),
{
    let h = g.with_node(shape);
    let i = g.nodes.index_of(id);
    lemma_position(h.nodes, i);
}

/// Removing a node leaves the shapes of the others as they were.
pub proof fn lemma_shape_after_remove(g: GraphView, gone: NodeId, id: NodeId)
    requires
        g.valid(),
        g.nodes.contains(gone),
        g.nodes.contains(id),
        id != gone,
    ensures
        g.without_node(gone).nodes.contains(id),
        g.without_node(gone).shape(id) == g.shape(id),
        ascending(g.without_node(gone).nodes),
{
    let h = g.without_node(gone);
    let at = g.nodes.index_of(gone);
    let i = g.nodes.index_of(id);
    lemma_position(g.nodes, at);
    let j = if i < at {
        i
    } else {
        i - 1
    };
    lemma_position(h.nodes, j);
}

/// Removing a node leaves a valid graph with the other nodes, each as it
/// was.
pub proof fn lemma_without_node(g: GraphView, id: NodeId)
    requires
        g.valid(),
    ensures
        g.without_node(id).valid(),
        forall|v: NodeId| #[trigger]
            g.without_node(id).nodes.contains(v) <==> g.nodes.contains(v) && v != id,
        forall|v: NodeId|
            #![trigger g.without_node(id).shape(v)]
            #![trigger g.without_node(id).life(v)]
            g.nodes.contains(v) && v != id ==> g.without_node(id).shape(v) == g.shape(v) && g.without_node(
                id,
            ).life(v) == g.life(v),
{
    let h = g.without_node(id);
    if g.nodes.contains(id) {
        let at = g.nodes.index_of(id);
        lemma_position(g.nodes, at);
        assert forall|i: int| 0 <= i < h.nodes.len() implies (#[trigger] h.nodes[i]).0 < h.next by {
            let i0 = if i < at {
                i
            } else {
                i + 1
            };
        }
        assert forall|v: NodeId| #[trigger] h.nodes.contains(v) <==> g.nodes.contains(v) && v != id by {
            if h.nodes.contains(v) {
                let i = choose|i: int| 0 <= i < h.nodes.len() && h.nodes[i] == v;
                let i0 = if i < at {
                    i
                } else {
                    i + 1
                };
                if v == id {
                    lemma_position(g.nodes, i0);
                }
            }
            if g.nodes.contains(v) && v != id {
                lemma_shape_after_remove(g, id, v);
            }
        }
        assert forall|v: NodeId|
            #![trigger h.shape(v)]
            #![trigger h.life(v)]
            g.nodes.contains(v) && v != id implies h.shape(v) == g.shape(v) && h.life(v) == g.life(v) by {
            lemma_shape_after_remove(g, id, v);
        }
        lemma_filtered(g.edges, apart_from(id));
        lemma_filtered(g.param_edges, param_apart_from(id));
        assert forall|k: int| 0 <= k < h.edges.len() implies h.routable(#[trigger] h.edges[k]) by {
            let e = h.edges[k];
            assert(g.edges.contains(e) && apart_from(id)(e));
            lemma_shape_after_remove(g, id, e.source);
            lemma_shape_after_remove(g, id, e.destination);
        }
        assert forall|k: int| 0 <= k < h.param_edges.len() implies h.modulable(#[trigger] h.param_edges[k]) by {
            let p = h.param_edges[k];
            assert(g.param_edges.contains(p) && param_apart_from(id)(p));
            lemma_shape_after_remove(g, id, p.source);
            lemma_shape_after_remove(g, id, p.owner);
        }
    }
}

/// Removing several nodes leaves a valid graph with the other nodes, each
/// as it was.
pub proof fn lemma_without_nodes(g: GraphView, gone: Seq<NodeId>)
    requires
        g.valid(),
    ensures
        g.without_nodes(gone).valid(),
        forall|v: NodeId| #[trigger]
            g.without_nodes(gone).nodes.contains(v) <==> g.nodes.contains(v) && !gone.contains(v),
        forall|v: NodeId|
            #![trigger g.without_nodes(gone).shape(v)]
            #![trigger g.without_nodes(gone).life(v)]
            g.nodes.contains(v) && !gone.contains(v) ==> g.without_nodes(gone).shape(v) == g.shape(v)
                && g.without_nodes(gone).life(v) == g.life(v),
    decreases gone.len(),
{
    if gone.len() > 0 {
        let front = gone.drop_last();
        let last = gone.last();
        lemma_without_nodes(g, front);
        let mid = g.without_nodes(front);
        lemma_without_node(mid, last);
        assert forall|v: NodeId| gone.contains(v) <==> front.contains(v) || v == last by {
            if gone.contains(v) {
                let i = choose|i: int| 0 <= i < gone.len() && gone[i] == v;
                if i < front.len() {
                    assert(front[i] == v);
                }
            }
        }
    }
}

/// Connecting two endpoints that were not connected and disconnecting them
/// again restores the graph, and with it the processing order and, for
/// every input, the connections that are summed into it.
pub proof fn lemma_connect_disconnect_restores(g: GraphView, e: Edge)
    requires
        !g.edges.contains(e),
    ensures
        g.with_edge(e).without_edge(e) == g,
        g.with_edge(e).without_edge(e).order() == g.order(),
        g.with_edge(e).without_edge(e).closing() == g.closing(),
        forall|node: NodeId, input: usize|
            feeding(g.with_edge(e).without_edge(e).edges, node, input) == feeding(g.edges, node, input),
{
    g.edges.lemma_filter_push(e, other_than(e));
    lemma_filter_all(g.edges, other_than(e));
}

} // verus!
