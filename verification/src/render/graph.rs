//! The render graph: the store of the topology, and the order in which
//! the nodes are processed.

use vstd::prelude::*;
use crate::error::ConfigurationError;
use crate::render::elimination::{find, ranked, resolve};
use crate::render::order::{
    ascending, closes_cycle, dependencies, is_topological, lemma_ascending_distinct, lemma_producers_first,
    precedes, Edge, NodeId,
};
use crate::render::reach::flow_back;
use crate::render::topology::{
    apart_from, carry, clear_of, edge, feeding, into, lemma_filter_all, lemma_filter_none,
    lemma_filtered,
    lemma_position, lemma_shape_after_add, lemma_valid_joins, lemma_without_node,
    lemma_without_nodes, other_than, param_apart_from, param_edge, param_other_than,
    params_clear_of, without_edge, without_param_edge, GraphView, NodeLife, NodeShape, ParamEdge,
    ParamId,
};

verus! {

/// The render graph.
pub struct Graph {
    ids: Vec<NodeId>,
    shapes: Vec<NodeShape>,
    lives: Vec<NodeLife>,
    edges: Vec<Edge>,
    param_edges: Vec<ParamEdge>,
    next_id: u64,
    order: Vec<NodeId>,
    closing: Vec<bool>,
    fresh: bool,
}

impl View for Graph {
    type V = GraphView;

    closed spec fn view(&self) -> GraphView {
        GraphView {
            nodes: self.ids@,
            shapes: self.shapes@,
            lives: self.lives@,
            edges: self.edges@,
            param_edges: self.param_edges@,
            next: self.next_id,
        }
    }
}

/// A copy of a vector.
fn duplicate<T: Copy>(v: &Vec<T>) -> (r: Vec<T>)
    ensures
        r@ == v@,
{
    let mut r: Vec<T> = Vec::new();
    let mut i: usize = 0;
    while i < v.len()
        invariant
            i <= v.len(),
            r@ == v@.take(i as int),
        decreases v.len() - i,
    {
        r.push(v[i]);
        i += 1;
    }
    r
}

/// Whether `e` is among the connections.
fn has_edge(edges: &Vec<Edge>, e: Edge) -> (r: bool)
    ensures
        r == edges@.contains(e),
{
    let mut i: usize = 0;
    while i < edges.len()
        invariant
            i <= edges.len(),
            forall|j: int| 0 <= j < i ==> edges[j] != e,
        decreases edges.len() - i,
    {
        if edges[i] == e {
            return true;
        }
        i += 1;
    }
    false
}

/// Whether `p` is among the parameter connections.
fn has_param_edge(edges: &Vec<ParamEdge>, p: ParamEdge) -> (r: bool)
    ensures
        r == edges@.contains(p),
{
    let mut i: usize = 0;
    while i < edges.len()
        invariant
            i <= edges.len(),
            forall|j: int| 0 <= j < i ==> edges[j] != p,
        decreases edges.len() - i,
    {
        if edges[i] == p {
            return true;
        }
        i += 1;
    }
    false
}

/// The connections other than `e`.
fn edges_without(edges: &Vec<Edge>, e: Edge) -> (r: Vec<Edge>)
    ensures
        r@ == without_edge(edges@, e),
{
    let mut r: Vec<Edge> = Vec::new();
    let mut i: usize = 0;
    proof {
        reveal(Seq::filter);
    }
    while i < edges.len()
        invariant
            i <= edges.len(),
            r@ == without_edge(edges@.take(i as int), e),
        decreases edges.len() - i,
    {
        proof {
            edges@.take(i as int).lemma_filter_push(edges[i as int], other_than(e));
            assert(edges@.take(i + 1) =~= edges@.take(i as int).push(edges[i as int]));
        }
        if edges[i] != e {
            r.push(edges[i]);
        }
        i += 1;
    }
    assert(edges@.take(edges.len() as int) =~= edges@);
    r
}

/// The connections that do not touch node `id`.
fn edges_clear_of(edges: &Vec<Edge>, id: NodeId) -> (r: Vec<Edge>)
    ensures
        r@ == clear_of(edges@, id),
{
    let mut r: Vec<Edge> = Vec::new();
    let mut i: usize = 0;
    proof {
        reveal(Seq::filter);
    }
    while i < edges.len()
        invariant
            i <= edges.len(),
            r@ == clear_of(edges@.take(i as int), id),
        decreases edges.len() - i,
    {
        proof {
            edges@.take(i as int).lemma_filter_push(edges[i as int], apart_from(id));
            assert(edges@.take(i + 1) =~= edges@.take(i as int).push(edges[i as int]));
        }
        if edges[i].source != id && edges[i].destination != id {
            r.push(edges[i]);
        }
        i += 1;
    }
    assert(edges@.take(edges.len() as int) =~= edges@);
    r
}

/// The connections that end at input `input` of node `node`.
fn edges_feeding(edges: &Vec<Edge>, node: NodeId, input: usize) -> (r: Vec<Edge>)
    ensures
        r@ == feeding(edges@, node, input),
{
    let mut r: Vec<Edge> = Vec::new();
    let mut i: usize = 0;
    proof {
        reveal(Seq::filter);
    }
    while i < edges.len()
        invariant
            i <= edges.len(),
            r@ == feeding(edges@.take(i as int), node, input),
        decreases edges.len() - i,
    {
        proof {
            edges@.take(i as int).lemma_filter_push(edges[i as int], into(node, input));
            assert(edges@.take(i + 1) =~= edges@.take(i as int).push(edges[i as int]));
        }
        if edges[i].destination == node && edges[i].input == input {
            r.push(edges[i]);
        }
        i += 1;
    }
    assert(edges@.take(edges.len() as int) =~= edges@);
    r
}

/// The parameter connections other than `p`.
fn params_without(edges: &Vec<ParamEdge>, p: ParamEdge) -> (r: Vec<ParamEdge>)
    ensures
        r@ == without_param_edge(edges@, p),
{
    let mut r: Vec<ParamEdge> = Vec::new();
    let mut i: usize = 0;
    proof {
        reveal(Seq::filter);
    }
    while i < edges.len()
        invariant
            i <= edges.len(),
            r@ == without_param_edge(edges@.take(i as int), p),
        decreases edges.len() - i,
    {
        proof {
            edges@.take(i as int).lemma_filter_push(edges[i as int], param_other_than(p));
            assert(edges@.take(i + 1) =~= edges@.take(i as int).push(edges[i as int]));
        }
        if edges[i] != p {
            r.push(edges[i]);
        }
        i += 1;
    }
    assert(edges@.take(edges.len() as int) =~= edges@);
    r
}

/// The parameter connections that do not touch node `id`.
fn params_without_node(edges: &Vec<ParamEdge>, id: NodeId) -> (r: Vec<ParamEdge>)
    ensures
        r@ == params_clear_of(edges@, id),
{
    let mut r: Vec<ParamEdge> = Vec::new();
    let mut i: usize = 0;
    proof {
        reveal(Seq::filter);
    }
    while i < edges.len()
        invariant
            i <= edges.len(),
            r@ == params_clear_of(edges@.take(i as int), id),
        decreases edges.len() - i,
    {
        proof {
            edges@.take(i as int).lemma_filter_push(edges[i as int], param_apart_from(id));
            assert(edges@.take(i + 1) =~= edges@.take(i as int).push(edges[i as int]));
        }
        if edges[i].source != id && edges[i].owner != id {
            r.push(edges[i]);
        }
        i += 1;
    }
    assert(edges@.take(edges.len() as int) =~= edges@);
    r
}

impl Graph {
    /// The graph is valid, and what it has cached of the processing order
    /// is right.
    pub closed spec fn wf(&self) -> bool {
        &&& self@.valid()
        &&& self.fresh ==> self.order@ == self@.order() && self.closing@ == self@.closing()
    }

    /// Whether the processing order is cached. Any change of the topology
    /// drops the cache; the next request for the order fills it again.
    pub closed spec fn cached(&self) -> bool {
        self.fresh
    }

    /// A well-formed graph is valid.
    pub proof fn lemma_wf(&self)
        requires
            self.wf(),
        ensures
            self@.valid(),
    {
    }

    /// The graph without nodes.
    pub fn new() -> (g: Graph)
        ensures
            g.wf(),
            g@ == GraphView::empty(),
            !g.cached(),
    {
        Graph {
            ids: Vec::new(),
            shapes: Vec::new(),
            lives: Vec::new(),
            edges: Vec::new(),
            param_edges: Vec::new(),
            next_id: 0,
            order: Vec::new(),
            closing: Vec::new(),
            fresh: false,
        }
    }

    /// Whether the topology changed since the processing order was last
    /// computed.
    pub fn is_dirty(&self) -> (r: bool)
        ensures
            r == !self.cached(),
    {
        !self.fresh
    }

    /// Adds a node and returns its identifier, which is larger than every
    /// identifier handed out before. Returns `None`, and changes nothing,
    /// once the identifiers are used up.
    pub fn add_node(&mut self, shape: NodeShape) -> (r: Option<NodeId>)
        requires
            old(self).wf(),
        ensures
            final(self).wf(),
            r is Some <==> old(self)@.next < u64::MAX,
            r matches Some(id) ==> id == NodeId(old(self)@.next) && final(self)@ == old(self)@.with_node(shape)
                && !final(self).cached(),
            r is None ==> final(self)@ == old(self)@ && final(self).cached() == old(self).cached(),
    {
        if self.next_id == u64::MAX {
            return None;
        }
        let id = NodeId(self.next_id);
        let ghost g = self@;
        self.fresh = false;
        self.ids.push(id);
        self.shapes.push(shape);
        self.lives.push(NodeLife { released: false, tail: false });
        self.next_id = self.next_id + 1;
        proof {
            let h = self@;
            assert forall|k: int| 0 <= k < h.edges.len() implies h.routable(#[trigger] h.edges[k]) by {
                let e = g.edges[k];
                lemma_shape_after_add(g, shape, e.source);
                lemma_shape_after_add(g, shape, e.destination);
            }
            assert forall|k: int| 0 <= k < h.param_edges.len() implies h.modulable(
                #[trigger] h.param_edges[k],
            ) by {
                let p = g.param_edges[k];
                lemma_shape_after_add(g, shape, p.source);
                lemma_shape_after_add(g, shape, p.owner);
            }
        }
        Some(id)
    }

    /// The identifier that the next node gets, unless the identifiers are
    /// used up.
    pub fn peek(&self) -> (r: Option<NodeId>)
        ensures
            r is Some <==> self@.next < u64::MAX,
            r matches Some(id) ==> id == NodeId(self@.next),
    {
        if self.next_id == u64::MAX {
            None
        } else {
            Some(NodeId(self.next_id))
        }
    }

    /// Whether the graph has a node `id`.
    pub fn contains(&self, id: NodeId) -> (r: bool)
        requires
            self.wf(),
        ensures
            r == self@.nodes.contains(id),
    {
        find(&self.ids, id).is_some()
    }

    /// The shape of node `id`, if the graph has such a node.
    pub fn shape(&self, id: NodeId) -> (r: Option<NodeShape>)
        requires
            self.wf(),
        ensures
            r is Some <==> self@.nodes.contains(id),
            r matches Some(s) ==> s == self@.shape(id),
    {
        match find(&self.ids, id) {
            Some(i) => {
                proof {
                    lemma_position(self.ids@, i as int);
                }
                Some(self.shapes[i])
            },
            None => None,
        }
    }

    /// Whether both endpoints of `e` exist.
    pub fn routable(&self, e: Edge) -> (r: bool)
        requires
            self.wf(),
        ensures
            r == self@.routable(e),
    {
        match find(&self.ids, e.source) {
            Some(s) => match find(&self.ids, e.destination) {
                Some(d) => {
                    proof {
                        lemma_position(self.ids@, s as int);
                        lemma_position(self.ids@, d as int);
                    }
                    e.output < self.shapes[s].outputs && e.input < self.shapes[d].inputs
                },
                None => false,
            },
            None => false,
        }
    }

    /// Whether both endpoints of `p` exist.
    pub fn modulable(&self, p: ParamEdge) -> (r: bool)
        requires
            self.wf(),
        ensures
            r == self@.modulable(p),
    {
        match find(&self.ids, p.source) {
            Some(s) => match find(&self.ids, p.owner) {
                Some(d) => {
                    proof {
                        lemma_position(self.ids@, s as int);
                    }
                    p.output < self.shapes[s].outputs
                },
                None => false,
            },
            None => false,
        }
    }

    /// Whether `e` is connected.
    pub fn is_connected(&self, e: Edge) -> (r: bool)
        ensures
            r == self@.edges.contains(e),
    {
        has_edge(&self.edges, e)
    }

    /// Whether `p` is connected.
    pub fn is_modulating(&self, p: ParamEdge) -> (r: bool)
        ensures
            r == self@.param_edges.contains(p),
    {
        has_param_edge(&self.param_edges, p)
    }

    /// Connects output `output` of `source` to input `input` of
    /// `destination`. Connecting what is connected already changes nothing.
    /// Fails, and changes nothing, when an endpoint does not exist.
    pub fn connect(&mut self, source: NodeId, output: usize, destination: NodeId, input: usize) -> (r: Result<
        (),
        ConfigurationError,
    >)
        requires
            old(self).wf(),
        ensures
            final(self).wf(),
            r is Ok <==> old(self)@.routable(edge(source, output, destination, input)),
            r is Ok ==> final(self)@ == old(self)@.with_edge(edge(source, output, destination, input)),
            r matches Err(e) ==> e == ConfigurationError::UnknownEndpoint && final(self)@ == old(self)@,
            final(self).cached() ==> old(self).cached() && final(self)@ == old(self)@,
    {
        let e = Edge { source, output, destination, input };
        if !self.routable(e) {
            return Err(ConfigurationError::UnknownEndpoint);
        }
        if has_edge(&self.edges, e) {
            return Ok(());
        }
        self.fresh = false;
        self.edges.push(e);
        Ok(())
    }

    /// Disconnects output `output` of `source` from input `input` of
    /// `destination`, and says whether the two were connected.
    pub fn disconnect(&mut self, source: NodeId, output: usize, destination: NodeId, input: usize) -> (r: bool)
        requires
            old(self).wf(),
        ensures
            final(self).wf(),
            r == old(self)@.edges.contains(edge(source, output, destination, input)),
            final(self)@ == old(self)@.without_edge(edge(source, output, destination, input)),
            !r ==> final(self)@ == old(self)@,
            final(self).cached() ==> old(self).cached() && final(self)@ == old(self)@,
    {
        let e = Edge { source, output, destination, input };
        let ghost g = self@;
        if !has_edge(&self.edges, e) {
            proof {
                lemma_filter_all(g.edges, other_than(e));
            }
            return false;
        }
        let kept = edges_without(&self.edges, e);
        self.fresh = false;
        self.edges = kept;
        proof {
            let h = self@;
            lemma_filtered(g.edges, other_than(e));
            assert forall|k: int| 0 <= k < h.edges.len() implies h.routable(#[trigger] h.edges[k]) by {
                assert(g.edges.contains(h.edges[k]));
            }
        }
        true
    }

    /// Connects output `output` of `source` to parameter `param` of
    /// `owner`. Connecting what is connected already changes nothing.
    /// Fails, and changes nothing, when an endpoint does not exist.
    pub fn connect_param(&mut self, source: NodeId, output: usize, owner: NodeId, param: ParamId) -> (r: Result<
        (),
        ConfigurationError,
    >)
        requires
            old(self).wf(),
        ensures
            final(self).wf(),
            r is Ok <==> old(self)@.modulable(param_edge(source, output, owner, param)),
            r is Ok ==> final(self)@ == old(self)@.with_param_edge(param_edge(source, output, owner, param)),
            r matches Err(e) ==> e == ConfigurationError::UnknownEndpoint && final(self)@ == old(self)@,
            final(self).cached() ==> old(self).cached() && final(self)@ == old(self)@,
    {
        let p = ParamEdge { source, output, owner, param };
        if !self.modulable(p) {
            return Err(ConfigurationError::UnknownEndpoint);
        }
        if has_param_edge(&self.param_edges, p) {
            return Ok(());
        }
        self.fresh = false;
        self.param_edges.push(p);
        Ok(())
    }

    /// Disconnects output `output` of `source` from parameter `param` of
    /// `owner`, and says whether the two were connected.
    pub fn disconnect_param(&mut self, source: NodeId, output: usize, owner: NodeId, param: ParamId) -> (r: bool)
        requires
            old(self).wf(),
        ensures
            final(self).wf(),
            r == old(self)@.param_edges.contains(param_edge(source, output, owner, param)),
            final(self)@ == old(self)@.without_param_edge(param_edge(source, output, owner, param)),
            !r ==> final(self)@ == old(self)@,
            final(self).cached() ==> old(self).cached() && final(self)@ == old(self)@,
    {
        let p = ParamEdge { source, output, owner, param };
        let ghost g = self@;
        if !has_param_edge(&self.param_edges, p) {
            proof {
                lemma_filter_all(g.param_edges, param_other_than(p));
            }
            return false;
        }
        let kept = params_without(&self.param_edges, p);
        self.fresh = false;
        self.param_edges = kept;
        proof {
            let h = self@;
            lemma_filtered(g.param_edges, param_other_than(p));
            assert forall|k: int| 0 <= k < h.param_edges.len() implies h.modulable(
                #[trigger] h.param_edges[k],
            ) by {
                assert(g.param_edges.contains(h.param_edges[k]));
            }
        }
        true
    }

    /// Removes node `id` together with every connection that touches it,
    /// and says whether the graph had such a node.
    pub fn remove_node(&mut self, id: NodeId) -> (r: bool)
        requires
            old(self).wf(),
        ensures
            final(self).wf(),
            r == old(self)@.nodes.contains(id),
            final(self)@ == old(self)@.without_node(id),
            final(self).cached() ==> old(self).cached() && final(self)@ == old(self)@,
    {
        let ghost g = self@;
        match find(&self.ids, id) {
            None => false,
            Some(at) => {
                proof {
                    lemma_position(self.ids@, at as int);
                }
                let edges = edges_clear_of(&self.edges, id);
                let params = params_without_node(&self.param_edges, id);
                self.fresh = false;
                self.ids.remove(at);
                self.shapes.remove(at);
                self.lives.remove(at);
                self.edges = edges;
                self.param_edges = params;
                proof {
                    lemma_without_node(g, id);
                }
                true
            },
        }
    }

    /// Fills the cache of the processing order if the topology changed
    /// since it was last filled.
    pub fn prepare(&mut self)
        requires
            old(self).wf(),
        ensures
            final(self).wf(),
            final(self)@ == old(self)@,
            final(self).cached(),
    {
        if !self.fresh {
            proof {
                lemma_valid_joins(self@);
            }
            let (order, closing) = resolve(&self.ids, &self.edges);
            self.order = order;
            self.closing = closing;
            self.fresh = true;
            proof {
                assert(self.closing@ =~= self@.closing());
            }
        }
    }

    /// The cached processing order, if there is one. Nothing is computed
    /// and nothing is copied.
    pub fn order(&self) -> (r: Option<&Vec<NodeId>>)
        requires
            self.wf(),
        ensures
            r is Some <==> self.cached(),
            r matches Some(order) ==> order@ == self@.order(),
    {
        if self.fresh {
            Some(&self.order)
        } else {
            None
        }
    }

    /// The order in which the nodes are processed in each quantum.
    ///
    /// Every node stands in it once. Every connection that closes no cycle
    /// leads from a node to one further back. Among the nodes whose
    /// producers have all been placed, the one with the smallest identifier
    /// comes first. The order is computed when the topology has changed
    /// since the last request, and cached until it changes again.
    pub fn processing_order(&mut self) -> (r: Vec<NodeId>)
        requires
            old(self).wf(),
        ensures
            final(self).wf(),
            final(self)@ == old(self)@,
            final(self).cached(),
            r@ == old(self)@.order(),
            is_topological(r@, old(self)@.nodes, dependencies(old(self)@.edges)),
            forall|k: int|
                0 <= k < old(self)@.edges.len() && !closes_cycle(old(self)@.edges, k) ==> precedes(
                    r@,
                    (#[trigger] old(self)@.edges[k]).source,
                    old(self)@.edges[k].destination,
                ),
    {
        self.prepare();
        proof {
            lemma_valid_joins(self@);
            lemma_producers_first(self@.nodes, self@.edges);
        }
        duplicate(&self.order)
    }

    /// For each connection, in the order in which the connections were
    /// made, whether it closes a cycle. Such a connection reads what its
    /// source put out in the previous quantum.
    pub fn cycle_closing(&mut self) -> (r: Vec<bool>)
        requires
            old(self).wf(),
        ensures
            final(self).wf(),
            final(self)@ == old(self)@,
            final(self).cached(),
            r@ == old(self)@.closing(),
    {
        self.prepare();
        duplicate(&self.closing)
    }

    /// The identifiers of the nodes, ascending.
    pub fn node_ids(&self) -> (r: Vec<NodeId>)
        requires
            self.wf(),
        ensures
            r@ == self@.nodes,
    {
        duplicate(&self.ids)
    }

    /// The audio connections, in the order in which they were made.
    pub fn edges(&self) -> (r: Vec<Edge>)
        requires
            self.wf(),
        ensures
            r@ == self@.edges,
    {
        duplicate(&self.edges)
    }

    /// The parameter connections, in the order in which they were made.
    pub fn param_edges(&self) -> (r: Vec<ParamEdge>)
        requires
            self.wf(),
        ensures
            r@ == self@.param_edges,
    {
        duplicate(&self.param_edges)
    }

    /// The connections that end at input `input` of node `node`, in the
    /// order in which they were made: what is summed into that input.
    pub fn incoming(&self, node: NodeId, input: usize) -> (r: Vec<Edge>)
        requires
            self.wf(),
        ensures
            r@ == feeding(self@.edges, node, input),
    {
        edges_feeding(&self.edges, node, input)
    }

    /// The life of node `id`, if the graph has such a node.
    pub fn life(&self, id: NodeId) -> (r: Option<NodeLife>)
        requires
            self.wf(),
        ensures
            r is Some <==> self@.nodes.contains(id),
            r matches Some(l) ==> l == self@.life(id),
    {
        match find(&self.ids, id) {
            Some(i) => {
                proof {
                    lemma_position(self.ids@, i as int);
                }
                Some(self.lives[i])
            },
            None => None,
        }
    }

    /// Replaces the life of node `id`, and says whether the graph has such
    /// a node.
    fn set_life(&mut self, id: NodeId, life: NodeLife) -> (r: bool)
        requires
            old(self).wf(),
        ensures
            final(self).wf(),
            r == old(self)@.nodes.contains(id),
            final(self)@ == old(self)@.with_life(id, life),
            final(self).cached() == old(self).cached(),
    {
        match find(&self.ids, id) {
            Some(i) => {
                proof {
                    lemma_position(self.ids@, i as int);
                }
                self.lives.set(i, life);
                true
            },
            None => false,
        }
    }

    /// Records that the control thread has let go of node `id`, and says
    /// whether the graph has such a node. The node stays in the graph
    /// until it can be retired.
    pub fn release(&mut self, id: NodeId) -> (r: bool)
        requires
            old(self).wf(),
        ensures
            final(self).wf(),
            r == old(self)@.nodes.contains(id),
            final(self)@ == old(self)@.with_life(id, (NodeLife { released: true, tail: old(self)@.life(id).tail })),
            final(self).cached() == old(self).cached(),
    {
        match self.life(id) {
            Some(life) => self.set_life(id, NodeLife { released: true, tail: life.tail }),
            None => false,
        }
    }

    /// Records what node `id` answered when it was processed: whether it
    /// is to be processed again even without input. Says whether the graph
    /// has such a node.
    pub fn set_tail(&mut self, id: NodeId, tail: bool) -> (r: bool)
        requires
            old(self).wf(),
        ensures
            final(self).wf(),
            r == old(self)@.nodes.contains(id),
            final(self)@ == old(self)@.with_life(id, (NodeLife { released: old(self)@.life(id).released, tail })),
            final(self).cached() == old(self).cached(),
    {
        match self.life(id) {
            Some(life) => self.set_life(id, NodeLife { released: life.released, tail }),
            None => false,
        }
    }

    /// Forgets what the nodes answered in the last quantum.
    pub fn clear_tails(&mut self)
        requires
            old(self).wf(),
        ensures
            final(self).wf(),
            final(self)@ == old(self)@.with_tails_cleared(),
            final(self).cached() == old(self).cached(),
    {
        let ghost g = self@;
        let n = self.lives.len();
        let mut i: usize = 0;
        while i < n
            invariant
                i <= n,
                n == self.lives.len(),
                n == g.lives.len(),
                self.ids == old(self).ids,
                self.shapes == old(self).shapes,
                self.edges == old(self).edges,
                self.param_edges == old(self).param_edges,
                self.next_id == old(self).next_id,
                self.order == old(self).order,
                self.closing == old(self).closing,
                self.fresh == old(self).fresh,
                forall|x: int|
                    0 <= x < i ==> self.lives[x] == (NodeLife { released: g.lives[x].released, tail: false }),
                forall|x: int| i <= x < n ==> self.lives[x] == g.lives[x],
            decreases n - i,
        {
            let life = self.lives[i];
            self.lives.set(i, NodeLife { released: life.released, tail: false });
            i += 1;
        }
    }

    /// The positions of the endpoints of every connection that carries
    /// data.
    fn carrier_ends(&self) -> (ends: Vec<(usize, usize)>)
        requires
            self.wf(),
        ensures
            ranked(self@.nodes, ends@, self@.carriers()),
    {
        let ghost g = self@;
        let mut ends: Vec<(usize, usize)> = Vec::new();
        let mut k: usize = 0;
        while k < self.edges.len()
            invariant
                k <= self.edges.len(),
                self.wf(),
                g == self@,
                ranked(g.nodes, ends@, g.edges.take(k as int)),
            decreases self.edges.len() - k,
        {
            let e = self.edges[k];
            let a = match find(&self.ids, e.source) {
                Some(a) => a,
                None => vstd::pervasive::unreached(),
            };
            let b = match find(&self.ids, e.destination) {
                Some(b) => b,
                None => vstd::pervasive::unreached(),
            };
            ends.push((a, b));
            k += 1;
        }
        let mut k: usize = 0;
        while k < self.param_edges.len()
            invariant
                k <= self.param_edges.len(),
                self.wf(),
                g == self@,
                ranked(g.nodes, ends@, carry(g.edges, g.param_edges.take(k as int))),
            decreases self.param_edges.len() - k,
        {
            let p = self.param_edges[k];
            let a = match find(&self.ids, p.source) {
                Some(a) => a,
                None => vstd::pervasive::unreached(),
            };
            let b = match find(&self.ids, p.owner) {
                Some(b) => b,
                None => vstd::pervasive::unreached(),
            };
            ends.push((a, b));
            k += 1;
        }
        ends
    }

    /// For each node, in ascending order of the identifiers, whether a
    /// path of connections leads from it to a terminal destination.
    pub fn audible(&self) -> (r: Vec<bool>)
        requires
            self.wf(),
        ensures
            r@.len() == self@.nodes.len(),
            forall|i: int| 0 <= i < r@.len() ==> (#[trigger] r@[i] <==> self@.audible(self@.nodes[i])),
    {
        let ends = self.carrier_ends();
        let mut sinks: Vec<bool> = Vec::new();
        let mut i: usize = 0;
        while i < self.shapes.len()
            invariant
                i <= self.shapes.len(),
                sinks.len() == i,
                forall|x: int| 0 <= x < i ==> sinks[x] == self.shapes[x].sink,
            decreases self.shapes.len() - i,
        {
            sinks.push(self.shapes[i].sink);
            i += 1;
        }
        proof {
            lemma_ascending_distinct(self@.nodes);
        }
        flow_back(&self.ids, &ends, &sinks, Ghost(self@.carriers()))
    }

    /// For each node, in ascending order of the identifiers, whether an
    /// audio connection ends at it.
    pub fn fed(&self) -> (r: Vec<bool>)
        requires
            self.wf(),
        ensures
            r@.len() == self@.nodes.len(),
            forall|i: int| 0 <= i < r@.len() ==> (#[trigger] r@[i] <==> self@.fed(self@.nodes[i])),
    {
        let ghost g = self@;
        let n = self.ids.len();
        let mut fed: Vec<bool> = Vec::new();
        let mut i: usize = 0;
        while i < n
            invariant
                i <= n,
                fed.len() == i,
                forall|x: int| 0 <= x < i ==> !fed[x],
            decreases n - i,
        {
            fed.push(false);
            i += 1;
        }
        proof {
            lemma_ascending_distinct(g.nodes);
        }
        let mut k: usize = 0;
        while k < self.edges.len()
            invariant
                k <= self.edges.len(),
                self.wf(),
                g == self@,
                n == g.nodes.len(),
                fed.len() == n,
                g.nodes.no_duplicates(),
                forall|x: int|
                    0 <= x < n ==> (#[trigger] fed[x] <==> exists|j: int|
                        0 <= j < k && (#[trigger] g.edges[j]).destination == g.nodes[x]),
            decreases self.edges.len() - k,
        {
            let e = self.edges[k];
            let b = match find(&self.ids, e.destination) {
                Some(b) => b,
                None => vstd::pervasive::unreached(),
            };
            fed.set(b, true);
            k += 1;
        }
        fed
    }

    /// The nodes that can be retired, ascending.
    pub fn retiring(&self) -> (r: Vec<NodeId>)
        requires
            self.wf(),
        ensures
            r@ == self@.retiring(),
    {
        let ghost g = self@;
        let n = self.ids.len();
        let mut gone: Vec<NodeId> = Vec::new();
        // Only a node that the control thread has let go of can be retired:
        // while there is none, nothing needs to be worked out.
        let mut any = false;
        let mut j: usize = 0;
        while j < n
            invariant
                j <= n,
                n == self.ids.len(),
                n == self.lives.len(),
                !any ==> forall|x: int| 0 <= x < j ==> !(#[trigger] self.lives[x]).released,
            decreases n - j,
        {
            if self.lives[j].released {
                any = true;
            }
            j += 1;
        }
        if !any {
            proof {
                assert forall|x: int| 0 <= x < n implies !g.can_retire()(#[trigger] g.nodes[x]) by {
                    lemma_position(g.nodes, x);
                }
                lemma_filter_none(g.nodes, g.can_retire());
            }
            return gone;
        }
        let audible = self.audible();
        let fed = self.fed();
        let mut i: usize = 0;
        proof {
            reveal(Seq::filter);
        }
        while i < n
            invariant
                i <= n,
                self.wf(),
                g == self@,
                n == g.nodes.len(),
                audible.len() == n,
                fed.len() == n,
                forall|x: int| 0 <= x < n ==> (#[trigger] audible[x] <==> g.audible(g.nodes[x])),
                forall|x: int| 0 <= x < n ==> (#[trigger] fed[x] <==> g.fed(g.nodes[x])),
                gone@ == g.nodes.take(i as int).filter(g.can_retire()),
            decreases n - i,
        {
            let life = self.lives[i];
            proof {
                lemma_position(g.nodes, i as int);
                g.nodes.take(i as int).lemma_filter_push(g.nodes[i as int], g.can_retire());
                assert(g.nodes.take(i + 1) =~= g.nodes.take(i as int).push(g.nodes[i as int]));
            }
            if life.released && !life.tail && !fed[i] && !audible[i] {
                gone.push(self.ids[i]);
            }
            i += 1;
        }
        proof {
            assert(g.nodes.take(n as int) =~= g.nodes);
        }
        gone
    }

    /// Retires every node that can be retired, together with the
    /// connections that touch it, and returns the retired nodes, ascending.
    ///
    /// A node stays exactly when the control thread still holds it, or it
    /// asked to be processed again, or something is connected to its
    /// inputs, or it can still be heard. The nodes that stay are as they
    /// were.
    pub fn retire(&mut self) -> (r: Vec<NodeId>)
        requires
            old(self).wf(),
        ensures
            final(self).wf(),
            r@ == old(self)@.retiring(),
            final(self)@ == old(self)@.without_nodes(r@),
            forall|v: NodeId| #[trigger]
                final(self)@.nodes.contains(v) <==> old(self)@.nodes.contains(v) && !old(self)@.retirable(v),
            forall|v: NodeId|
                #![trigger final(self)@.shape(v)]
                #![trigger final(self)@.life(v)]
                final(self)@.nodes.contains(v) ==> final(self)@.shape(v) == old(self)@.shape(v)
                    && final(self)@.life(v) == old(self)@.life(v),
            r@.len() == 0 ==> final(self).cached() == old(self).cached(),
    {
        let ghost g = self@;
        let gone = self.retiring();
        let mut i: usize = 0;
        while i < gone.len()
            invariant
                i <= gone.len(),
                self.wf(),
                g.valid(),
                self@ == g.without_nodes(gone@.take(i as int)),
                i == 0 ==> self.cached() == old(self).cached(),
            decreases gone.len() - i,
        {
            self.remove_node(gone[i]);
            proof {
                assert(gone@.take(i + 1).drop_last() =~= gone@.take(i as int));
            }
            i += 1;
        }
        proof {
            assert(gone@.take(gone.len() as int) =~= gone@);
            lemma_without_nodes(g, gone@);
            lemma_filtered(g.nodes, g.can_retire());
        }
        gone
    }
}

} // verus!
