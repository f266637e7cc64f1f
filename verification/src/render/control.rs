//! The control side of the bridge: the calls by which the control thread
//! changes the topology.
//!
//! The control thread keeps a copy of the graph. A call is judged against
//! the copy at the call site; only a change that fits is queued for the
//! render thread, and only a change that was queued is made to the copy.
//! Queuing never waits: a full queue is reported to the caller.

use vstd::prelude::*;
use crossbeam_channel::Sender;
use crate::channel::{try_send, SendStatus};
use crate::error::ConfigurationError;
use crate::render::graph::Graph;
use crate::render::order::{Edge, NodeId};
use crate::render::thread::{applied, apply_to, fits, ControlMessage};
use crate::render::topology::{
    edge, lemma_position, param_edge, GraphView, NodeShape, ParamEdge, ParamId,
};

verus! {

/// Why a change of the topology was not made.
#[derive(Clone, Copy, Debug, PartialEq, Eq, Structural)]
pub enum ControlError {
    /// The change does not fit the graph.
    Refused(ConfigurationError),
    /// The identifiers are used up.
    Exhausted,
    /// The queue to the render thread is full.
    QueueFull,
    /// The render thread is gone.
    Disconnected,
}

/// Whether the control thread still holds node `id` of `g`.
pub open spec fn held(g: GraphView, id: NodeId) -> bool {
    g.nodes.contains(id) && !g.life(id).released
}

/// Whether the control thread may ask for the change `m` of `g`: the
/// change fits, and every node it names is still held.
pub open spec fn allowed(g: GraphView, m: ControlMessage) -> bool {
    fits(g, m) && match m {
        ControlMessage::AddNode { id, shape } => true,
        ControlMessage::RemoveNode { id } => held(g, id),
        ControlMessage::Connect { edge } => held(g, edge.source) && held(g, edge.destination),
        ControlMessage::Disconnect { edge } => held(g, edge.source) && held(g, edge.destination),
        ControlMessage::ConnectParam { link } => held(g, link.source) && held(g, link.owner),
        ControlMessage::DisconnectParam { link } => held(g, link.source) && held(g, link.owner),
    }
}

/// Why a change that is not allowed is turned down: a node cannot be added
/// once the identifiers are used up; any other change names a node, a port
/// or a connection that is not there.
pub open spec fn objection(g: GraphView, m: ControlMessage) -> ControlError {
    if m is AddNode && g.next == u64::MAX {
        ControlError::Exhausted
    } else {
        ControlError::Refused(ConfigurationError::UnknownEndpoint)
    }
}

/// Why a change that could not be queued was not made.
pub open spec fn undelivered(status: SendStatus) -> Option<ControlError> {
    match status {
        SendStatus::Sent => None,
        SendStatus::Full => Some(ControlError::QueueFull),
        SendStatus::Disconnected => Some(ControlError::Disconnected),
    }
}

/// Whether a call ended as the queue decided: the change was made, or the
/// queue was full, or the render thread was gone.
pub open spec fn left_to_queue<T>(r: Result<T, ControlError>) -> bool {
    r is Ok || r == Err::<T, ControlError>(ControlError::QueueFull) || r == Err::<T, ControlError>(
        ControlError::Disconnected,
    )
}

/// The control thread's end of the bridge.
pub struct ControlThread {
    mirror: Graph,
    sender: Sender<ControlMessage>,
    next_param: u64,
}

impl ControlThread {
    /// The graph as the control thread knows it.
    pub closed spec fn graph(&self) -> GraphView {
        self.mirror@
    }

    /// The copy of the graph is well formed.
    pub closed spec fn wf(&self) -> bool {
        self.mirror.wf()
    }

    /// A well-formed control side knows a valid graph.
    pub proof fn lemma_wf(&self)
        requires
            self.wf(),
        ensures
            self.graph().valid(),
    {
        self.mirror.lemma_wf();
    }

    /// The control side of a bridge whose messages go to `sender`, with an
    /// empty graph.
    pub fn new(sender: Sender<ControlMessage>) -> (r: ControlThread)
        ensures
            r.wf(),
            r.graph() == GraphView::empty(),
            r.queue() == sender,
            r.params_allotted() == 0,
    {
        ControlThread { mirror: Graph::new(), sender, next_param: 0 }
    }

    /// How many parameter identifiers were handed out: the identifier that
    /// the next parameter gets.
    pub closed spec fn params_allotted(&self) -> u64 {
        self.next_param
    }

    /// The queue on which the changes go to the render thread. It is the
    /// one that the control side was made with, for as long as it lives.
    pub closed spec fn queue(&self) -> Sender<ControlMessage> {
        self.sender
    }

    /// Read access to the copy of the graph.
    pub fn topology(&self) -> (g: &Graph)
        requires
            self.wf(),
        ensures
            g.wf(),
            g@ == self.graph(),
    {
        &self.mirror
    }

    fn holds(&self, id: NodeId) -> (r: bool)
        requires
            self.wf(),
        ensures
            r == held(self.graph(), id),
    {
        match self.mirror.life(id) {
            Some(life) => !life.released,
            None => false,
        }
    }

    /// Whether the control thread may ask for the change `message`.
    pub fn allows(&self, message: ControlMessage) -> (r: bool)
        requires
            self.wf(),
        ensures
            r == allowed(self.graph(), message),
    {
        match message {
            ControlMessage::AddNode { id, shape } => self.mirror.peek() == Some(id),
            ControlMessage::RemoveNode { id } => self.holds(id),
            ControlMessage::Connect { edge } => self.mirror.routable(edge) && self.holds(edge.source)
                && self.holds(edge.destination),
            ControlMessage::Disconnect { edge } => self.mirror.is_connected(edge) && self.holds(edge.source)
                && self.holds(edge.destination),
            ControlMessage::ConnectParam { link } => self.mirror.modulable(link) && self.holds(link.source)
                && self.holds(link.owner),
            ControlMessage::DisconnectParam { link } => self.mirror.is_modulating(link) && self.holds(
                link.source,
            ) && self.holds(link.owner),
        }
    }

    /// Why a change that could not be queued was not made, for each way
    /// the hand-off can end.
    pub fn delivery(status: SendStatus) -> (r: Option<ControlError>)
        ensures
            r == undelivered(status),
    {
        match status {
            SendStatus::Sent => None,
            SendStatus::Full => Some(ControlError::QueueFull),
            SendStatus::Disconnected => Some(ControlError::Disconnected),
        }
    }

    /// Asks for the change `message`.
    ///
    /// A change that is not allowed fails at once: it is not queued,
    /// and nothing changes. An allowed change is offered to the queue
    /// once, without waiting. If the queue takes it, the copy of the graph
    /// changes as the graph of the render thread will; if not, nothing
    /// changes and the caller is told why.
    pub fn request(&mut self, message: ControlMessage) -> (r: Result<(), ControlError>)
        requires
            old(self).wf(),
        ensures
            final(self).wf(),
            final(self).queue() == old(self).queue(),
            final(self).params_allotted() == old(self).params_allotted(),
            !allowed(old(self).graph(), message) ==> r == Err::<(), ControlError>(
                objection(old(self).graph(), message),
            ),
            allowed(old(self).graph(), message) ==> left_to_queue(r),
            final(self).graph() == if r is Ok {
                applied(old(self).graph(), message)
            } else {
                old(self).graph()
            },
    {
        if !self.allows(message) {
            let exhausted = self.mirror.peek().is_none();
            return Err(
                match message {
                    ControlMessage::AddNode { id, shape } => if exhausted {
                        ControlError::Exhausted
                    } else {
                        ControlError::Refused(ConfigurationError::UnknownEndpoint)
                    },
                    _ => ControlError::Refused(ConfigurationError::UnknownEndpoint),
                },
            );
        }
        match Self::delivery(try_send(&self.sender, message)) {
            Some(error) => Err(error),
            None => {
                apply_to(&mut self.mirror, message);
                Ok(())
            },
        }
    }

    /// Creates a node of the given shape and returns its identifier.
    pub fn add_node(&mut self, shape: NodeShape) -> (r: Result<NodeId, ControlError>)
        requires
            old(self).wf(),
        ensures
            final(self).wf(),
            final(self).queue() == old(self).queue(),
            final(self).params_allotted() == old(self).params_allotted(),
            old(self).graph().next == u64::MAX ==> r == Err::<NodeId, ControlError>(ControlError::Exhausted),
            old(self).graph().next < u64::MAX ==> left_to_queue(r),
            r matches Ok(id) ==> id == NodeId(old(self).graph().next) && final(self).graph()
                == old(self).graph().with_node(shape),
            r matches Err(e) ==> final(self).graph() == old(self).graph() && (e == ControlError::Exhausted
                || e == ControlError::QueueFull || e == ControlError::Disconnected),
    {
        match self.mirror.peek() {
            None => Err(ControlError::Exhausted),
            Some(id) => match self.request(ControlMessage::AddNode { id, shape }) {
                Ok(()) => Ok(id),
                Err(error) => Err(error),
            },
        }
    }

    /// Lets go of node `id`. The node stays in the graph until the render
    /// thread retires it, but the control thread can name it no more.
    pub fn remove_node(&mut self, id: NodeId) -> (r: Result<(), ControlError>)
        requires
            old(self).wf(),
        ensures
            final(self).wf(),
            final(self).queue() == old(self).queue(),
            final(self).params_allotted() == old(self).params_allotted(),
            !held(old(self).graph(), id) ==> r == Err::<(), ControlError>(
                ControlError::Refused(ConfigurationError::UnknownEndpoint),
            ),
            held(old(self).graph(), id) ==> left_to_queue(r),
            r is Ok ==> !held(final(self).graph(), id),
            final(self).graph() == if r is Ok {
                applied(old(self).graph(), (ControlMessage::RemoveNode { id }))
            } else {
                old(self).graph()
            },
    {
        let r = self.request(ControlMessage::RemoveNode { id });
        proof {
            if r is Ok {
                old(self).lemma_wf();
                lemma_position(old(self).graph().nodes, old(self).graph().nodes.index_of(id));
            }
        }
        r
    }

    /// Connects output `output` of `source` to input `input` of
    /// `destination`. Fails with a configuration error, at once and
    /// without a trace on the render thread, when an endpoint does not
    /// exist.
    pub fn connect(&mut self, source: NodeId, output: usize, destination: NodeId, input: usize) -> (r: Result<
        (),
        ControlError,
    >)
        requires
            old(self).wf(),
        ensures
            final(self).wf(),
            final(self).queue() == old(self).queue(),
            final(self).params_allotted() == old(self).params_allotted(),
            !(old(self).graph().routable(edge(source, output, destination, input)) && held(
                old(self).graph(),
                source,
            ) && held(old(self).graph(), destination)) ==> r == Err::<(), ControlError>(
                ControlError::Refused(ConfigurationError::UnknownEndpoint),
            ),
            old(self).graph().routable(edge(source, output, destination, input)) && held(
                old(self).graph(),
                source,
            ) && held(old(self).graph(), destination) ==> left_to_queue(r),
            final(self).graph() == if r is Ok {
                old(self).graph().with_edge(edge(source, output, destination, input))
            } else {
                old(self).graph()
            },
    {
        self.request(ControlMessage::Connect { edge: Edge { source, output, destination, input } })
    }

    /// Disconnects output `output` of `source` from input `input` of
    /// `destination`. Fails with a configuration error when the two are
    /// not connected.
    pub fn disconnect(&mut self, source: NodeId, output: usize, destination: NodeId, input: usize) -> (r: Result<
        (),
        ControlError,
    >)
        requires
            old(self).wf(),
        ensures
            final(self).wf(),
            final(self).queue() == old(self).queue(),
            final(self).params_allotted() == old(self).params_allotted(),
            !(old(self).graph().edges.contains(edge(source, output, destination, input)) && held(
                old(self).graph(),
                source,
            ) && held(old(self).graph(), destination)) ==> r == Err::<(), ControlError>(
                ControlError::Refused(ConfigurationError::UnknownEndpoint),
            ),
            old(self).graph().edges.contains(edge(source, output, destination, input)) && held(
                old(self).graph(),
                source,
            ) && held(old(self).graph(), destination) ==> left_to_queue(r),
            final(self).graph() == if r is Ok {
                old(self).graph().without_edge(edge(source, output, destination, input))
            } else {
                old(self).graph()
            },
    {
        self.request(ControlMessage::Disconnect { edge: Edge { source, output, destination, input } })
    }

    /// Connects output `output` of `source` to parameter `param` of
    /// `owner`. Fails with a configuration error when an endpoint does not
    /// exist.
    pub fn connect_param(&mut self, source: NodeId, output: usize, owner: NodeId, param: ParamId) -> (r: Result<
        (),
        ControlError,
    >)
        requires
            old(self).wf(),
        ensures
            final(self).wf(),
            final(self).queue() == old(self).queue(),
            final(self).params_allotted() == old(self).params_allotted(),
            !(old(self).graph().modulable(param_edge(source, output, owner, param)) && held(
                old(self).graph(),
                source,
            ) && held(old(self).graph(), owner)) ==> r == Err::<(), ControlError>(
                ControlError::Refused(ConfigurationError::UnknownEndpoint),
            ),
            old(self).graph().modulable(param_edge(source, output, owner, param)) && held(
                old(self).graph(),
                source,
            ) && held(old(self).graph(), owner) ==> left_to_queue(r),
            final(self).graph() == if r is Ok {
                old(self).graph().with_param_edge(param_edge(source, output, owner, param))
            } else {
                old(self).graph()
            },
    {
        self.request(ControlMessage::ConnectParam { link: ParamEdge { source, output, owner, param } })
    }

    /// Disconnects output `output` of `source` from parameter `param` of
    /// `owner`. Fails with a configuration error when the two are not
    /// connected.
    pub fn disconnect_param(&mut self, source: NodeId, output: usize, owner: NodeId, param: ParamId) -> (r: Result<
        (),
        ControlError,
    >)
        requires
            old(self).wf(),
        ensures
            final(self).wf(),
            final(self).queue() == old(self).queue(),
            final(self).params_allotted() == old(self).params_allotted(),
            !(old(self).graph().param_edges.contains(param_edge(source, output, owner, param)) && held(
                old(self).graph(),
                source,
            ) && held(old(self).graph(), owner)) ==> r == Err::<(), ControlError>(
                ControlError::Refused(ConfigurationError::UnknownEndpoint),
            ),
            old(self).graph().param_edges.contains(param_edge(source, output, owner, param)) && held(
                old(self).graph(),
                source,
            ) && held(old(self).graph(), owner) ==> left_to_queue(r),
            final(self).graph() == if r is Ok {
                old(self).graph().without_param_edge(param_edge(source, output, owner, param))
            } else {
                old(self).graph()
            },
    {
        self.request(ControlMessage::DisconnectParam { link: ParamEdge { source, output, owner, param } })
    }

    /// Hands out the identifier for a new parameter: one more than the
    /// last. Returns `None`, and changes nothing, once the identifiers
    /// are used up.
    pub fn allot_param(&mut self) -> (r: Option<ParamId>)
        requires
            old(self).wf(),
        ensures
            final(self).wf(),
            final(self).queue() == old(self).queue(),
            final(self).graph() == old(self).graph(),
            r is Some <==> old(self).params_allotted() < u64::MAX,
            r matches Some(id) ==> id == ParamId(old(self).params_allotted()) && final(self).params_allotted()
                == old(self).params_allotted() + 1,
            r is None ==> final(self).params_allotted() == old(self).params_allotted(),
    {
        if self.next_param == u64::MAX {
            return None;
        }
        let id = ParamId(self.next_param);
        self.next_param = self.next_param + 1;
        Some(id)
    }

    /// Forgets node `id`, which the control thread let go of and the
    /// render thread has retired, and says whether it did. A node that is
    /// still held is not forgotten.
    pub fn forget(&mut self, id: NodeId) -> (r: bool)
        requires
            old(self).wf(),
        ensures
            final(self).wf(),
            final(self).queue() == old(self).queue(),
            final(self).params_allotted() == old(self).params_allotted(),
            r == (old(self).graph().nodes.contains(id) && old(self).graph().life(id).released),
            final(self).graph() == if r {
                old(self).graph().without_node(id)
            } else {
                old(self).graph()
            },
    {
        match self.mirror.life(id) {
            Some(life) => {
                if life.released {
                    self.mirror.remove_node(id)
                } else {
                    false
                }
            },
            None => false,
        }
    }
}

} // verus!
