use audio_graph::buffer::AudioBuffer;
use audio_graph::channel::{Received, SendStatus};
use audio_graph::error::ConfigurationError;
use audio_graph::media::output::{interleave, OutputRender, OutputStream, PlaybackOutcome};
use audio_graph::render::graph::Graph;
use audio_graph::mixing::ChannelConfig;
use audio_graph::render::order::NodeId;
use audio_graph::render::topology::NodeShape;
use audio_graph::RENDER_QUANTUM_SIZE;

fn block(channels: usize, seed: u32) -> Vec<u32> {
    (0..channels * RENDER_QUANTUM_SIZE).map(|i| seed + i as u32).collect()
}

fn buffer(channels: usize, seed: u32) -> AudioBuffer {
    AudioBuffer::from_interleaved(&block(channels, seed), channels, 48000).unwrap()
}

fn pair(capacity: usize, channels: usize) -> (OutputRender, OutputStream) {
    let (sender, receiver) = crossbeam_channel::bounded(capacity);
    (OutputRender::new(sender), OutputStream::new(receiver, channels, 48000).ok().unwrap())
}

#[test]
fn overrun_drops_the_newest_buffer() {
    let (render, mut stream) = pair(2, 2);
    assert_eq!(render.play(buffer(2, 0)), PlaybackOutcome::Queued);
    assert_eq!(render.play(buffer(2, 1000)), PlaybackOutcome::Queued);
    assert_eq!(render.play(buffer(2, 2000)), PlaybackOutcome::Dropped);
    assert_eq!(interleave(&stream.next().unwrap()), block(2, 0));
    assert_eq!(interleave(&stream.next().unwrap()), block(2, 1000));
    assert!(interleave(&stream.next().unwrap()).iter().all(|s| *s == 0));
}

#[test]
fn underrun_is_answered_with_silence() {
    let (_render, mut stream) = pair(2, 3);
    let silence = stream.next().unwrap();
    assert_eq!(silence.number_of_channels(), 3);
    assert_eq!(silence.sample_rate(), 48000);
    assert_eq!(interleave(&silence), vec![0u32; 3 * RENDER_QUANTUM_SIZE]);
}

#[test]
fn playback_ends_with_the_render_loop() {
    let (render, mut stream) = pair(2, 1);
    assert_eq!(render.play(buffer(1, 7)), PlaybackOutcome::Queued);
    drop(render);
    assert_eq!(interleave(&stream.next().unwrap()), block(1, 7));
    assert!(stream.next().is_none());
}

#[test]
fn buffer_is_dropped_when_the_hardware_is_gone() {
    let (render, stream) = pair(2, 1);
    drop(stream);
    assert_eq!(render.play(buffer(1, 7)), PlaybackOutcome::Dropped);
}

#[test]
fn playback_settles_and_delivers_by_outcome() {
    assert_eq!(OutputRender::settle(SendStatus::Sent), PlaybackOutcome::Queued);
    assert_eq!(OutputRender::settle(SendStatus::Full), PlaybackOutcome::Dropped);
    assert_eq!(OutputRender::settle(SendStatus::Disconnected), PlaybackOutcome::Dropped);
    let (_render, stream) = pair(1, 2);
    let forwarded = stream.deliver(Received::Message(buffer(1, 5))).unwrap();
    assert_eq!(interleave(&forwarded), block(1, 5));
    assert_eq!(stream.deliver(Received::Empty).unwrap().number_of_channels(), 2);
    assert!(stream.deliver(Received::Disconnected).is_none());
}

#[test]
fn output_stream_checks_the_channel_count() {
    let (_sender, receiver) = crossbeam_channel::bounded::<AudioBuffer>(1);
    assert_eq!(
        OutputStream::new(receiver, 0, 48000).err(),
        Some(ConfigurationError::InvalidChannelCount)
    );
    let (_sender, receiver) = crossbeam_channel::bounded::<AudioBuffer>(1);
    assert_eq!(
        OutputStream::new(receiver, 33, 48000).err(),
        Some(ConfigurationError::InvalidChannelCount)
    );
}

#[test]
fn interleaving_undoes_the_split_into_channels() {
    for channels in [1usize, 2, 3, 6] {
        let data = block(channels, 42);
        let buffer = AudioBuffer::from_interleaved(&data, channels, 44100).unwrap();
        assert_eq!(interleave(&buffer), data);
        let split = AudioBuffer::from_channels(
            (0..channels).map(|c| buffer.channel(c).unwrap().clone()).collect(),
            44100,
        )
        .unwrap();
        assert_eq!(interleave(&split), data);
    }
    let stereo = buffer(2, 0);
    let data = interleave(&stereo);
    assert_eq!(data[0], stereo.channel(0).unwrap()[0]);
    assert_eq!(data[1], stereo.channel(1).unwrap()[0]);
    assert_eq!(data[2], stereo.channel(0).unwrap()[1]);
    assert_eq!(data[255], stereo.channel(1).unwrap()[127]);
}

#[test]
fn cached_order_is_there_once_prepared() {
    let mut graph = Graph::new();
    let shape = NodeShape { inputs: 1, outputs: 1, config: ChannelConfig::default(), sink: false };
    let a = graph.add_node(shape).unwrap();
    let b = graph.add_node(shape).unwrap();
    assert_eq!(graph.peek(), Some(NodeId(2)));
    graph.connect(b, 0, a, 0).unwrap();
    assert!(graph.order().is_none());
    graph.prepare();
    assert_eq!(graph.order().unwrap(), &vec![b, a]);
    assert!(graph.is_connected(graph.edges()[0]));
    assert!(graph.routable(graph.edges()[0]));
    graph.disconnect(b, 0, a, 0);
    assert!(graph.order().is_none());
    assert_eq!(graph.retiring(), Vec::<NodeId>::new());
    assert!(graph.release(b));
    assert_eq!(graph.retiring(), vec![b]);
    assert!(graph.set_tail(b, true));
    assert_eq!(graph.retire(), Vec::<NodeId>::new());
    assert!(graph.set_tail(b, false));
    assert_eq!(graph.retire(), vec![b]);
    assert_eq!(graph.node_ids(), vec![a]);
}
