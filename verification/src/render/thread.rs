//! The render loop, quantum by quantum.
//!
//! Between two quanta the loop takes in what the control thread has
//! queued. Within a quantum it processes the nodes in their order and
//! records what each one answers. At the end of the quantum it retires the
//! nodes that nothing can be heard of any more, and advances the sample
//! clock. The loop decides; its caller moves the audio.

use vstd::prelude::*;
use crossbeam_channel::Receiver;
use crate::channel::{queued, try_recv, Received};
use crate::render::graph::Graph;
use crate::render::topology::{GraphView, NodeLife, NodeShape, ParamEdge};
use crate::render::order::{
    closes_cycle, dependencies, is_topological, lemma_producers_first, precedes, Edge, NodeId,
};
use crate::render::topology::{lemma_filtered, lemma_valid_joins, lemma_without_nodes};
use crate::RENDER_QUANTUM_SIZE;

verus! {

/// Where the loop stands.
#[derive(Clone, Copy, Debug, PartialEq, Eq, Structural)]
pub enum Phase {
    /// Between two quanta: messages are taken in.
    Between,
    /// Within a quantum: nodes are processed.
    Within,
}

/// A change of the topology, sent by the control thread.
#[derive(Clone, Copy, Debug)]
pub enum ControlMessage {
    /// A node was created with this identifier and shape.
    AddNode { id: NodeId, shape: NodeShape },
    /// The control thread has let go of this node.
    RemoveNode { id: NodeId },
    /// An output was connected to an input.
    Connect { edge: Edge },
    /// An output was disconnected from an input.
    Disconnect { edge: Edge },
    /// An output was connected to a parameter.
    ConnectParam { link: ParamEdge },
    /// An output was disconnected from a parameter.
    DisconnectParam { link: ParamEdge },
}

/// Whether message `m` fits graph `g`. A message that does not fit is
/// ignored.
pub open spec fn fits(g: GraphView, m: ControlMessage) -> bool {
    match m {
        ControlMessage::AddNode { id, shape } => id == NodeId(g.next) && g.next < u64::MAX,
        ControlMessage::RemoveNode { id } => g.nodes.contains(id),
        ControlMessage::Connect { edge } => g.routable(edge),
        ControlMessage::Disconnect { edge } => g.edges.contains(edge),
        ControlMessage::ConnectParam { link } => g.modulable(link),
        ControlMessage::DisconnectParam { link } => g.param_edges.contains(link),
    }
}

/// Graph `g` after message `m`.
pub open spec fn applied(g: GraphView, m: ControlMessage) -> GraphView {
    if !fits(g, m) {
        g
    } else {
        match m {
            ControlMessage::AddNode { id, shape } => g.with_node(shape),
            ControlMessage::RemoveNode { id } => g.with_life(
                id,
                NodeLife { released: true, tail: g.life(id).tail },
            ),
            ControlMessage::Connect { edge } => g.with_edge(edge),
            ControlMessage::Disconnect { edge } => g.without_edge(edge),
            ControlMessage::ConnectParam { link } => g.with_param_edge(link),
            ControlMessage::DisconnectParam { link } => g.without_param_edge(link),
        }
    }
}

/// Graph `g` after the messages `ms`, first to last.
pub open spec fn applied_all(g: GraphView, ms: Seq<ControlMessage>) -> GraphView
    decreases ms.len(),
{
    if ms.len() == 0 {
        g
    } else {
        applied(applied_all(g, ms.drop_last()), ms.last())
    }
}

/// The sample clock one quantum after `clock`. The clock counts frames and
/// wraps around.
pub open spec fn advanced(clock: u64) -> u64 {
    if clock + RENDER_QUANTUM_SIZE <= u64::MAX {
        (clock + RENDER_QUANTUM_SIZE) as u64
    } else {
        (clock + RENDER_QUANTUM_SIZE - u64::MAX - 1) as u64
    }
}

/// Applies `message` to `graph` if it fits, and says whether it did.
pub(crate) fn apply_to(graph: &mut Graph, message: ControlMessage) -> (r: bool)
    requires
        old(graph).wf(),
    ensures
        final(graph).wf(),
        r == fits(old(graph)@, message),
        final(graph)@ == applied(old(graph)@, message),
{
    proof {
        graph.lemma_wf();
    }
    match message {
        ControlMessage::AddNode { id, shape } => {
            if graph.peek() == Some(id) {
                graph.add_node(shape);
                true
            } else {
                false
            }
        },
        ControlMessage::RemoveNode { id } => graph.release(id),
        ControlMessage::Connect { edge } => graph.connect(
            edge.source,
            edge.output,
            edge.destination,
            edge.input,
        ).is_ok(),
        ControlMessage::Disconnect { edge } => graph.disconnect(
            edge.source,
            edge.output,
            edge.destination,
            edge.input,
        ),
        ControlMessage::ConnectParam { link } => graph.connect_param(
            link.source,
            link.output,
            link.owner,
            link.param,
        ).is_ok(),
        ControlMessage::DisconnectParam { link } => graph.disconnect_param(
            link.source,
            link.output,
            link.owner,
            link.param,
        ),
    }
}

/// The state of the render loop.
pub struct RenderThread {
    graph: Graph,
    clock: u64,
    phase: Phase,
}

impl RenderThread {
    /// The graph that the loop renders.
    pub closed spec fn graph(&self) -> GraphView {
        self.graph@
    }

    /// The sample clock: the number of frames rendered so far.
    pub closed spec fn clock(&self) -> u64 {
        self.clock
    }

    /// Where the loop stands.
    pub closed spec fn phase(&self) -> Phase {
        self.phase
    }

    /// The graph is well formed.
    pub closed spec fn wf(&self) -> bool {
        &&& self.graph.wf()
        &&& self.phase == Phase::Within ==> self.graph.cached()
    }

    /// A well-formed loop renders a valid graph.
    pub proof fn lemma_wf(&self)
        requires
            self.wf(),
        ensures
            self.graph().valid(),
    {
        self.graph.lemma_wf();
    }

    /// A loop that has rendered nothing yet, with an empty graph.
    pub fn new() -> (r: RenderThread)
        ensures
            r.wf(),
            r.graph() == GraphView::empty(),
            r.clock() == 0,
            r.phase() == Phase::Between,
    {
        RenderThread { graph: Graph::new(), clock: 0, phase: Phase::Between }
    }

    /// The number of frames rendered so far.
    pub fn current_frame(&self) -> (r: u64)
        ensures
            r == self.clock(),
    {
        self.clock
    }

    /// Whether the loop is within a quantum.
    pub fn is_processing(&self) -> (r: bool)
        ensures
            r == (self.phase() == Phase::Within),
    {
        self.phase == Phase::Within
    }

    /// Read access to the graph.
    pub fn topology(&self) -> (g: &Graph)
        requires
            self.wf(),
        ensures
            g.wf(),
            g@ == self.graph(),
    {
        &self.graph
    }

    /// Takes in one message, and says whether it changed anything. Between
    /// two quanta a message that fits the graph is applied; any other is
    /// ignored. Within a quantum nothing is taken in.
    pub fn apply(&mut self, message: ControlMessage) -> (r: bool)
        requires
            old(self).wf(),
        ensures
            final(self).wf(),
            final(self).clock() == old(self).clock(),
            final(self).phase() == old(self).phase(),
            r == (old(self).phase() == Phase::Between && fits(old(self).graph(), message)),
            final(self).graph() == if old(self).phase() == Phase::Between {
                applied(old(self).graph(), message)
            } else {
                old(self).graph()
            },
    {
        if self.phase == Phase::Within {
            return false;
        }
        apply_to(&mut self.graph, message)
    }

    /// Takes in the messages that are queued at this moment, in their
    /// order, and returns how many it took in. Never waits: messages that
    /// arrive during the call are left for the next one. Within a quantum
    /// nothing is taken in.
    ///
    /// What is queued is for the other thread to decide, so the graph is
    /// stated for whatever messages came: each was applied as
    /// [`RenderThread::apply`] applies it.
    pub fn drain(&mut self, receiver: &Receiver<ControlMessage>) -> (r: usize)
        requires
            old(self).wf(),
        ensures
            final(self).wf(),
            final(self).clock() == old(self).clock(),
            final(self).phase() == old(self).phase(),
            old(self).phase() == Phase::Within ==> r == 0 && final(self).graph() == old(self).graph(),
            exists|messages: Seq<ControlMessage>|
                messages.len() == r && final(self).graph() == #[trigger] applied_all(old(self).graph(), messages),
    {
        let batch = queued(receiver);
        let mut taken: usize = 0;
        let ghost mut messages: Seq<ControlMessage> = Seq::empty();
        let mut open = self.phase == Phase::Between;
        while taken < batch && open
            invariant
                self.wf(),
                taken <= batch,
                self.clock() == old(self).clock(),
                self.phase() == old(self).phase(),
                messages.len() == taken,
                open ==> old(self).phase() == Phase::Between,
                old(self).phase() == Phase::Within ==> taken == 0,
                self.graph() == applied_all(old(self).graph(), messages),
            decreases
                    batch - taken + if open {
                        1int
                    } else {
                        0int
                    },
        {
            let received = try_recv(receiver);
            proof {
                if received is Message {
                    let next = messages.push(received->0);
                    assert(next.drop_last() =~= messages);
                    messages = next;
                }
            }
            open = self.take(received);
            if open {
                taken += 1;
            }
        }
        taken
    }

    /// What one look at the queue means for the loop. A message is taken
    /// in as [`RenderThread::apply`] takes it, and another look may
    /// follow. An empty queue, or one whose sender is gone, ends the
    /// taking and changes nothing.
    pub fn take(&mut self, received: Received<ControlMessage>) -> (more: bool)
        requires
            old(self).wf(),
        ensures
            final(self).wf(),
            final(self).clock() == old(self).clock(),
            final(self).phase() == old(self).phase(),
            more == (received is Message),
            received matches Received::Message(message) ==> final(self).graph() == if old(self).phase()
                == Phase::Between {
                applied(old(self).graph(), message)
            } else {
                old(self).graph()
            },
            !(received is Message) ==> final(self).graph() == old(self).graph(),
    {
        match received {
            Received::Message(message) => {
                self.apply(message);
                true
            },
            Received::Empty => false,
            Received::Disconnected => false,
        }
    }

    /// Starts a quantum, and says whether it did: within a quantum none
    /// is started, and nothing changes. What the nodes answered in the
    /// last quantum is forgotten, and the processing order is worked out
    /// anew if the topology has changed since it last was.
    pub fn begin_quantum(&mut self) -> (r: bool)
        requires
            old(self).wf(),
        ensures
            final(self).wf(),
            final(self).clock() == old(self).clock(),
            final(self).phase() == Phase::Within,
            r == (old(self).phase() == Phase::Between),
            final(self).graph() == if r {
                old(self).graph().with_tails_cleared()
            } else {
                old(self).graph()
            },
    {
        if self.phase == Phase::Within {
            return false;
        }
        self.graph.clear_tails();
        self.graph.prepare();
        self.phase = Phase::Within;
        true
    }

    /// The order in which the nodes are to be processed in this quantum;
    /// `None` between two quanta. Every node of the graph stands in it
    /// once, and every connection that closes no cycle leads from a node
    /// to one further back. Nothing is computed and nothing is copied.
    pub fn plan(&self) -> (r: Option<&Vec<NodeId>>)
        requires
            self.wf(),
        ensures
            r is Some <==> self.phase() == Phase::Within,
            r matches Some(order) ==> {
                &&& order@ == self.graph().order()
                &&& is_topological(order@, self.graph().nodes, dependencies(self.graph().edges))
                &&& forall|k: int|
                    0 <= k < self.graph().edges.len() && !closes_cycle(self.graph().edges, k) ==> precedes(
                        order@,
                        (#[trigger] self.graph().edges[k]).source,
                        self.graph().edges[k].destination,
                    )
            },
    {
        if self.phase == Phase::Between {
            return None;
        }
        proof {
            self.graph.lemma_wf();
            lemma_valid_joins(self.graph@);
            lemma_producers_first(self.graph@.nodes, self.graph@.edges);
        }
        self.graph.order()
    }

    /// Records what node `node` answered when it was processed in this
    /// quantum: whether it is to be processed again even without input.
    /// Says whether the answer was recorded: it is not between two quanta,
    /// nor for a node that the graph does not have.
    pub fn report(&mut self, node: NodeId, continue_tail: bool) -> (r: bool)
        requires
            old(self).wf(),
        ensures
            final(self).wf(),
            final(self).clock() == old(self).clock(),
            final(self).phase() == old(self).phase(),
            r == (old(self).phase() == Phase::Within && old(self).graph().nodes.contains(node)),
            final(self).graph() == if r {
                old(self).graph().with_life(
                    node,
                    (NodeLife { released: old(self).graph().life(node).released, tail: continue_tail }),
                )
            } else {
                old(self).graph()
            },
    {
        if self.phase == Phase::Between {
            return false;
        }
        self.graph.set_tail(node, continue_tail)
    }

    /// Ends the quantum: retires the nodes that can be retired, advances
    /// the sample clock by one quantum, and returns the retired nodes.
    /// Returns `None`, and changes nothing, between two quanta.
    ///
    /// A node is retired exactly when the control thread has let go of it,
    /// it did not ask to be processed again, nothing is connected to its
    /// inputs, and no path leads from it to a terminal destination. Every
    /// other node stays, as it was, and is processed in the next quantum.
    pub fn end_quantum(&mut self) -> (r: Option<Vec<NodeId>>)
        requires
            old(self).wf(),
        ensures
            final(self).wf(),
            final(self).phase() == Phase::Between,
            r is Some <==> old(self).phase() == Phase::Within,
            r is None ==> final(self).graph() == old(self).graph() && final(self).clock() == old(self).clock(),
            r matches Some(retired) ==> {
                &&& final(self).clock() == advanced(old(self).clock())
                &&& retired@ == old(self).graph().retiring()
                &&& final(self).graph() == old(self).graph().without_nodes(retired@)
                &&& forall|v: NodeId| #[trigger]
                    final(self).graph().nodes.contains(v) <==> old(self).graph().nodes.contains(v)
                        && !old(self).graph().retirable(v)
                &&& forall|v: NodeId| #[trigger]
                    final(self).graph().nodes.contains(v) ==> final(self).graph().order().contains(v)
            },
    {
        if self.phase == Phase::Between {
            return None;
        }
        let retired = self.graph.retire();
        self.clock = self.clock.wrapping_add(RENDER_QUANTUM_SIZE as u64);
        self.phase = Phase::Between;
        proof {
            self.graph.lemma_wf();
            lemma_valid_joins(self.graph@);
            lemma_producers_first(self.graph@.nodes, self.graph@.edges);
        }
        Some(retired)
    }
}

/// A node that asked to be processed again stays in the graph at the end
/// of the quantum, whatever else holds of it, and stands in the processing
/// order of the next quantum.
pub proof fn lemma_tail_keeps_node(g: GraphView, v: NodeId)
    requires
        g.valid(),
        g.nodes.contains(v),
        g.life(v).tail,
    ensures
        g.without_nodes(g.retiring()).nodes.contains(v),
        g.without_nodes(g.retiring()).order().contains(v),
{
    lemma_filtered(g.nodes, g.can_retire());
    lemma_without_nodes(g, g.retiring());
    let h = g.without_nodes(g.retiring());
    lemma_valid_joins(h);
    lemma_producers_first(h.nodes, h.edges);
}

/// A node that did not ask to be processed again is retired at the end of
/// the quantum once the control thread has let go of it, nothing is
/// connected to its inputs and nothing can be heard of it. Until all of
/// that holds, it stays.
pub proof fn lemma_silent_node_retires(g: GraphView, v: NodeId)
    requires
        g.valid(),
        g.nodes.contains(v),
        !g.life(v).tail,
    ensures
        g.without_nodes(g.retiring()).nodes.contains(v) <==> !g.life(v).released || g.fed(v) || g.audible(v),
{
    lemma_filtered(g.nodes, g.can_retire());
    lemma_without_nodes(g, g.retiring());
}

} // verus!
