use audio_graph::channel::Received;
use audio_graph::mixing::{ChannelConfig, ChannelCountMode, ChannelInterpretation};
use audio_graph::render::topology::{NodeShape, ParamEdge, ParamId};
use audio_graph::render::order::{Edge, NodeId};
use audio_graph::render::thread::{ControlMessage, RenderThread};

fn shape(sink: bool) -> NodeShape {
    NodeShape {
        inputs: 1,
        outputs: 1,
        config: ChannelConfig::new(2, ChannelCountMode::Max, ChannelInterpretation::Speakers)
            .unwrap(),
        sink,
    }
}

fn edge(source: u64, destination: u64) -> Edge {
    Edge { source: NodeId(source), output: 0, destination: NodeId(destination), input: 0 }
}

/// destination (0) <- gain (1) <- source (2)
fn chain() -> RenderThread {
    let mut thread = RenderThread::new();
    assert!(thread.apply(ControlMessage::AddNode { id: NodeId(0), shape: shape(true) }));
    assert!(thread.apply(ControlMessage::AddNode { id: NodeId(1), shape: shape(false) }));
    assert!(thread.apply(ControlMessage::AddNode { id: NodeId(2), shape: shape(false) }));
    assert!(thread.apply(ControlMessage::Connect { edge: edge(2, 1) }));
    assert!(thread.apply(ControlMessage::Connect { edge: edge(1, 0) }));
    thread
}

fn quantum(thread: &mut RenderThread, tails: &[(u64, bool)]) -> Vec<NodeId> {
    assert!(thread.begin_quantum());
    let order = thread.plan().unwrap().clone();
    for node in &order {
        let tail = tails.iter().any(|(id, tail)| NodeId(*id) == *node && *tail);
        assert!(thread.report(*node, tail));
    }
    thread.end_quantum().unwrap()
}

#[test]
fn quantum_runs_in_order_and_advances_the_clock() {
    let mut thread = chain();
    assert_eq!(thread.current_frame(), 0);
    assert!(!thread.is_processing());
    assert!(thread.plan().is_none());
    assert!(thread.begin_quantum());
    assert_eq!(thread.plan().unwrap(), &vec![NodeId(2), NodeId(1), NodeId(0)]);
    assert!(thread.is_processing());
    assert!(!thread.begin_quantum());
    assert_eq!(thread.plan().unwrap(), &vec![NodeId(2), NodeId(1), NodeId(0)]);
    assert_eq!(thread.end_quantum().unwrap(), Vec::<NodeId>::new());
    assert_eq!(thread.current_frame(), 128);
    assert!(thread.end_quantum().is_none());
    assert_eq!(thread.current_frame(), 128);
    quantum(&mut thread, &[]);
    assert_eq!(thread.current_frame(), 256);
}

#[test]
fn messages_are_not_taken_in_within_a_quantum() {
    let mut thread = chain();
    assert!(thread.begin_quantum());
    assert!(!thread.apply(ControlMessage::Disconnect { edge: edge(2, 1) }));
    assert!(!thread.apply(ControlMessage::AddNode { id: NodeId(3), shape: shape(false) }));
    assert_eq!(thread.topology().edges().len(), 2);
    thread.end_quantum().unwrap();
    assert!(thread.apply(ControlMessage::Disconnect { edge: edge(2, 1) }));
    assert_eq!(thread.topology().edges().len(), 1);
}

#[test]
fn answers_are_recorded_only_within_a_quantum() {
    let mut thread = chain();
    assert!(!thread.report(NodeId(1), true));
    assert!(thread.begin_quantum());
    assert!(thread.report(NodeId(1), true));
    assert!(!thread.report(NodeId(9), true));
    assert!(thread.topology().life(NodeId(1)).unwrap().tail);
    thread.end_quantum().unwrap();
    assert!(thread.begin_quantum());
    assert!(!thread.topology().life(NodeId(1)).unwrap().tail);
}

#[test]
fn messages_that_do_not_fit_are_ignored() {
    let mut thread = chain();
    assert!(!thread.apply(ControlMessage::AddNode { id: NodeId(7), shape: shape(false) }));
    assert!(!thread.apply(ControlMessage::RemoveNode { id: NodeId(7) }));
    assert!(!thread.apply(ControlMessage::Connect { edge: edge(2, 7) }));
    assert!(!thread.apply(ControlMessage::Disconnect { edge: edge(0, 2) }));
    let modulation = ParamEdge { source: NodeId(2), output: 0, owner: NodeId(7), param: ParamId(0) };
    assert!(!thread.apply(ControlMessage::ConnectParam { link: modulation }));
    assert!(!thread.apply(ControlMessage::DisconnectParam { link: modulation }));
    assert_eq!(thread.topology().node_ids().len(), 3);
    assert_eq!(thread.topology().edges().len(), 2);
}

#[test]
fn node_with_a_tail_is_processed_in_the_next_quantum() {
    let mut thread = chain();
    thread.apply(ControlMessage::Disconnect { edge: edge(1, 0) });
    thread.apply(ControlMessage::Disconnect { edge: edge(2, 1) });
    thread.apply(ControlMessage::RemoveNode { id: NodeId(1) });
    // Node 1 is released, has no inputs and cannot be heard, but still rings.
    assert_eq!(quantum(&mut thread, &[(1, true)]), Vec::<NodeId>::new());
    assert!(thread.begin_quantum());
    assert!(thread.plan().unwrap().contains(&NodeId(1)));
    thread.report(NodeId(1), true);
    assert_eq!(thread.end_quantum().unwrap(), Vec::<NodeId>::new());
    // The tail ends in this quantum: the node is retired at its end.
    assert_eq!(quantum(&mut thread, &[]), vec![NodeId(1)]);
    assert!(thread.begin_quantum());
    assert!(!thread.plan().unwrap().contains(&NodeId(1)));
}

#[test]
fn silent_node_stays_while_it_is_held_fed_or_heard() {
    // Held by the control thread.
    let mut thread = chain();
    thread.apply(ControlMessage::Disconnect { edge: edge(1, 0) });
    thread.apply(ControlMessage::Disconnect { edge: edge(2, 1) });
    assert_eq!(quantum(&mut thread, &[]), Vec::<NodeId>::new());

    // Released, but something is connected to its input.
    let mut thread = chain();
    thread.apply(ControlMessage::Disconnect { edge: edge(1, 0) });
    thread.apply(ControlMessage::RemoveNode { id: NodeId(1) });
    assert_eq!(quantum(&mut thread, &[]), Vec::<NodeId>::new());

    // Released and without input, but heard at the destination.
    let mut thread = chain();
    thread.apply(ControlMessage::RemoveNode { id: NodeId(2) });
    assert_eq!(quantum(&mut thread, &[]), Vec::<NodeId>::new());

    // Released, without input, unheard and silent: retired.
    thread.apply(ControlMessage::Disconnect { edge: edge(2, 1) });
    assert_eq!(quantum(&mut thread, &[]), vec![NodeId(2)]);
    assert_eq!(thread.topology().node_ids(), vec![NodeId(0), NodeId(1)]);
}

#[test]
fn node_heard_through_a_parameter_stays() {
    let mut thread = chain();
    thread.apply(ControlMessage::Disconnect { edge: edge(2, 1) });
    thread.apply(ControlMessage::ConnectParam {
        link: ParamEdge { source: NodeId(2), output: 0, owner: NodeId(1), param: ParamId(3) },
    });
    thread.apply(ControlMessage::RemoveNode { id: NodeId(2) });
    assert_eq!(quantum(&mut thread, &[]), Vec::<NodeId>::new());
    assert_eq!(thread.topology().audible(), vec![true, true, true]);
}

#[test]
fn released_chain_is_retired_one_node_per_quantum() {
    let mut thread = chain();
    thread.apply(ControlMessage::Disconnect { edge: edge(1, 0) });
    thread.apply(ControlMessage::RemoveNode { id: NodeId(1) });
    thread.apply(ControlMessage::RemoveNode { id: NodeId(2) });
    assert_eq!(thread.topology().audible(), vec![true, false, false]);
    assert_eq!(thread.topology().fed(), vec![false, true, false]);
    assert_eq!(thread.topology().retiring(), vec![NodeId(2)]);
    assert_eq!(quantum(&mut thread, &[]), vec![NodeId(2)]);
    assert_eq!(quantum(&mut thread, &[]), vec![NodeId(1)]);
    assert_eq!(quantum(&mut thread, &[]), Vec::<NodeId>::new());
    assert_eq!(thread.topology().node_ids(), vec![NodeId(0)]);
}

#[test]
fn drain_takes_the_queued_batch_and_never_waits() {
    let (sender, receiver) = crossbeam_channel::bounded(8);
    let mut thread = RenderThread::new();
    assert_eq!(thread.drain(&receiver), 0);
    sender.send(ControlMessage::AddNode { id: NodeId(0), shape: shape(true) }).unwrap();
    sender.send(ControlMessage::AddNode { id: NodeId(1), shape: shape(false) }).unwrap();
    sender.send(ControlMessage::Connect { edge: edge(1, 0) }).unwrap();
    assert_eq!(thread.drain(&receiver), 3);
    assert_eq!(thread.topology().node_ids(), vec![NodeId(0), NodeId(1)]);
    assert_eq!(thread.topology().edges(), vec![edge(1, 0)]);

    sender.send(ControlMessage::Disconnect { edge: edge(1, 0) }).unwrap();
    assert!(thread.begin_quantum());
    assert_eq!(thread.drain(&receiver), 0);
    assert_eq!(thread.topology().edges().len(), 1);
    thread.end_quantum().unwrap();
    drop(sender);
    assert_eq!(thread.drain(&receiver), 1);
    assert!(thread.topology().edges().is_empty());
    assert_eq!(thread.drain(&receiver), 0);
}

#[test]
fn one_look_takes_a_message_or_ends_the_taking() {
    let mut thread = chain();
    assert!(!thread.take(Received::Empty));
    assert!(!thread.take(Received::Disconnected));
    assert_eq!(thread.topology().edges().len(), 2);
    assert!(thread.take(Received::Message(ControlMessage::Disconnect { edge: edge(2, 1) })));
    assert_eq!(thread.topology().edges(), vec![edge(1, 0)]);
    // A message that does not fit is taken and ignored; the taking goes on.
    assert!(thread.take(Received::Message(ControlMessage::Disconnect { edge: edge(2, 1) })));
    assert_eq!(thread.topology().edges(), vec![edge(1, 0)]);
    // Within a quantum a message is looked at, but not applied.
    assert!(thread.begin_quantum());
    assert!(thread.take(Received::Message(ControlMessage::Disconnect { edge: edge(1, 0) })));
    assert_eq!(thread.topology().edges(), vec![edge(1, 0)]);
}
