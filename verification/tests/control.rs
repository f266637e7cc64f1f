use audio_graph::error::ConfigurationError;
use audio_graph::mixing::{ChannelConfig, ChannelCountMode, ChannelInterpretation};
use audio_graph::render::control::{ControlError, ControlThread};
use audio_graph::render::order::{Edge, NodeId};
use audio_graph::render::thread::{ControlMessage, RenderThread};
use audio_graph::render::topology::{NodeShape, ParamEdge, ParamId};
use audio_graph::channel::SendStatus;

fn shape(sink: bool) -> NodeShape {
    NodeShape {
        inputs: 1,
        outputs: 1,
        config: ChannelConfig::new(2, ChannelCountMode::Max, ChannelInterpretation::Speakers)
            .unwrap(),
        sink,
    }
}

const UNKNOWN: ControlError = ControlError::Refused(ConfigurationError::UnknownEndpoint);

#[test]
fn changes_reach_the_render_thread_in_order() {
    let (sender, receiver) = crossbeam_channel::bounded(16);
    let mut control = ControlThread::new(sender);
    let mut render = RenderThread::new();
    let destination = control.add_node(shape(true)).unwrap();
    let source = control.add_node(shape(false)).unwrap();
    assert_eq!((destination, source), (NodeId(0), NodeId(1)));
    control.connect(source, 0, destination, 0).unwrap();
    control.connect_param(source, 0, destination, ParamId(3)).unwrap();
    assert!(render.topology().node_ids().is_empty());
    assert_eq!(render.drain(&receiver), 4);
    assert_eq!(render.topology().node_ids(), control.topology().node_ids());
    assert_eq!(render.topology().edges(), control.topology().edges());
    assert_eq!(render.topology().param_edges(), control.topology().param_edges());
    assert!(render.begin_quantum());
    assert_eq!(render.plan().unwrap(), &vec![source, destination]);
    render.end_quantum().unwrap();

    control.disconnect(source, 0, destination, 0).unwrap();
    control.disconnect_param(source, 0, destination, ParamId(3)).unwrap();
    assert_eq!(render.drain(&receiver), 2);
    assert!(render.topology().edges().is_empty());
    assert!(render.topology().param_edges().is_empty());
}

#[test]
fn unknown_endpoints_fail_at_the_call_site_and_queue_nothing() {
    let (sender, receiver) = crossbeam_channel::bounded(16);
    let mut control = ControlThread::new(sender);
    let a = control.add_node(shape(true)).unwrap();
    let b = control.add_node(shape(false)).unwrap();
    assert_eq!(receiver.len(), 2);
    assert_eq!(control.connect(b, 0, NodeId(9), 0), Err(UNKNOWN));
    assert_eq!(control.connect(NodeId(9), 0, a, 0), Err(UNKNOWN));
    assert_eq!(control.connect(b, 1, a, 0), Err(UNKNOWN));
    assert_eq!(control.connect(b, 0, a, 1), Err(UNKNOWN));
    assert_eq!(control.disconnect(b, 0, a, 0), Err(UNKNOWN));
    assert_eq!(control.connect_param(b, 1, a, ParamId(0)), Err(UNKNOWN));
    assert_eq!(control.disconnect_param(b, 0, a, ParamId(0)), Err(UNKNOWN));
    assert_eq!(control.remove_node(NodeId(9)), Err(UNKNOWN));
    assert_eq!(
        control.request(ControlMessage::AddNode { id: NodeId(7), shape: shape(false) }),
        Err(UNKNOWN)
    );
    assert_eq!(receiver.len(), 2);
    assert!(control.topology().edges().is_empty());
}

#[test]
fn full_queue_is_reported_and_changes_nothing() {
    let (sender, receiver) = crossbeam_channel::bounded(2);
    let mut control = ControlThread::new(sender);
    let mut render = RenderThread::new();
    let a = control.add_node(shape(true)).unwrap();
    let b = control.add_node(shape(false)).unwrap();
    assert_eq!(control.connect(b, 0, a, 0), Err(ControlError::QueueFull));
    assert_eq!(control.add_node(shape(false)), Err(ControlError::QueueFull));
    assert!(control.topology().edges().is_empty());
    assert_eq!(control.topology().node_ids(), vec![a, b]);
    assert_eq!(render.drain(&receiver), 2);
    assert_eq!(control.connect(b, 0, a, 0), Ok(()));
    assert_eq!(control.add_node(shape(false)), Ok(NodeId(2)));
    assert_eq!(render.drain(&receiver), 2);
    assert_eq!(render.topology().node_ids(), control.topology().node_ids());
    assert_eq!(render.topology().edges(), control.topology().edges());
}

#[test]
fn lost_render_thread_is_reported() {
    let (sender, receiver) = crossbeam_channel::bounded(2);
    let mut control = ControlThread::new(sender);
    drop(receiver);
    assert_eq!(control.add_node(shape(false)), Err(ControlError::Disconnected));
    assert!(control.topology().node_ids().is_empty());
}

#[test]
fn released_node_can_be_named_no_more() {
    let (sender, receiver) = crossbeam_channel::bounded(16);
    let mut control = ControlThread::new(sender);
    let mut render = RenderThread::new();
    let a = control.add_node(shape(true)).unwrap();
    let b = control.add_node(shape(false)).unwrap();
    control.connect(b, 0, a, 0).unwrap();
    assert!(!control.forget(b));
    control.remove_node(b).unwrap();
    assert_eq!(control.remove_node(b), Err(UNKNOWN));
    assert_eq!(control.connect(b, 0, a, 0), Err(UNKNOWN));
    assert_eq!(control.disconnect(b, 0, a, 0), Err(UNKNOWN));
    assert_eq!(control.connect_param(b, 0, a, ParamId(0)), Err(UNKNOWN));

    // The released node plays on while it can be heard.
    render.drain(&receiver);
    assert!(render.begin_quantum());
    assert_eq!(render.end_quantum().unwrap(), Vec::<NodeId>::new());
    assert_eq!(render.topology().edges().len(), 1);

    // Once the render thread has retired it, the control thread forgets it.
    assert!(render.apply(ControlMessage::Disconnect {
        edge: Edge { source: b, output: 0, destination: a, input: 0 },
    }));
    assert!(render.begin_quantum());
    let retired = render.end_quantum().unwrap();
    assert_eq!(retired, vec![b]);
    for node in retired {
        assert!(control.forget(node));
    }
    assert!(!control.forget(b));
    assert_eq!(control.topology().node_ids(), vec![a]);
    assert!(control.topology().edges().is_empty());
    assert_eq!(control.add_node(shape(false)), Ok(NodeId(2)));
}

#[test]
fn allowed_is_what_fits_and_is_held() {
    let (sender, _receiver) = crossbeam_channel::bounded(16);
    let mut control = ControlThread::new(sender);
    let a = control.add_node(shape(true)).unwrap();
    let b = control.add_node(shape(false)).unwrap();
    let edge = Edge { source: b, output: 0, destination: a, input: 0 };
    let link = ParamEdge { source: b, output: 0, owner: a, param: ParamId(1) };
    assert!(control.allows(ControlMessage::Connect { edge }));
    assert!(!control.allows(ControlMessage::Disconnect { edge }));
    assert!(control.allows(ControlMessage::ConnectParam { link }));
    assert!(!control.allows(ControlMessage::DisconnectParam { link }));
    assert!(control.allows(ControlMessage::RemoveNode { id: a }));
    assert!(control.allows(ControlMessage::AddNode { id: NodeId(2), shape: shape(false) }));
    assert!(!control.allows(ControlMessage::AddNode { id: NodeId(1), shape: shape(false) }));
    control.connect(b, 0, a, 0).unwrap();
    assert!(control.allows(ControlMessage::Disconnect { edge }));
    assert_eq!(ControlThread::delivery(SendStatus::Sent), None);
    assert_eq!(ControlThread::delivery(SendStatus::Full), Some(ControlError::QueueFull));
    assert_eq!(ControlThread::delivery(SendStatus::Disconnected), Some(ControlError::Disconnected));
}

#[test]
fn parameter_identifiers_ascend_from_zero() {
    let (sender, receiver) = crossbeam_channel::bounded(4);
    let mut control = ControlThread::new(sender);
    assert_eq!(control.allot_param(), Some(ParamId(0)));
    assert_eq!(control.allot_param(), Some(ParamId(1)));
    control.add_node(shape(true)).unwrap();
    assert_eq!(control.allot_param(), Some(ParamId(2)));
    assert_eq!(receiver.len(), 1);
}
