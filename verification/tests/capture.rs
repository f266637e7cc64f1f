use audio_graph::buffer::AudioBuffer;
use audio_graph::channel::{Received, SendStatus};
use audio_graph::error::ConfigurationError;
use audio_graph::media::mic::{
    BackendCommand, CaptureOutcome, Microphone, MicrophoneRender, MicrophoneStream,
};
use audio_graph::{MAX_CHANNELS, RENDER_QUANTUM_SIZE};

fn block(channels: usize, seed: f32) -> Vec<u32> {
    let mut data = Vec::new();
    for frame in 0..RENDER_QUANTUM_SIZE {
        for channel in 0..channels {
            let value = seed + (frame as f32) * 0.001 + (channel as f32) * 10.0;
            data.push(value.to_bits());
        }
    }
    data
}

fn pair(
    capacity: usize,
    channels: usize,
) -> (MicrophoneRender, Microphone, MicrophoneStream) {
    let (sender, receiver) = crossbeam_channel::bounded(capacity);
    let render = MicrophoneRender::new(channels, 48000, sender);
    let microphone = Microphone::new(receiver, channels, 48000).unwrap();
    let stream = microphone.stream();
    (render, microphone, stream)
}

#[test]
fn full_queue_drops_exactly_the_newest_block() {
    let capacity = 4;
    let (render, _microphone, mut stream) = pair(capacity, 2);
    for i in 0..capacity {
        assert_eq!(render.render(&block(2, i as f32)), CaptureOutcome::Delivered);
    }
    assert_eq!(render.render(&block(2, 99.0)), CaptureOutcome::Dropped);
    for i in 0..capacity {
        let buffer = stream.next().unwrap();
        let expected = block(2, i as f32);
        assert_eq!(buffer.number_of_channels(), 2);
        for channel in 0..2 {
            let samples = buffer.channel(channel).unwrap();
            assert_eq!(samples.len(), RENDER_QUANTUM_SIZE);
            for frame in 0..RENDER_QUANTUM_SIZE {
                assert_eq!(samples[frame], expected[frame * 2 + channel]);
            }
        }
    }
    let late = stream.next().unwrap();
    assert!(late.channel(0).unwrap().iter().all(|s| *s == 0));
}

#[test]
fn empty_queue_yields_silence_of_the_stream_shape() {
    let (_render, _microphone, mut stream) = pair(3, 2);
    let buffer = stream.next().unwrap();
    assert_eq!(buffer.number_of_channels(), 2);
    assert_eq!(buffer.length(), 128);
    assert_eq!(buffer.sample_rate(), 48000);
    for channel in 0..2 {
        let samples = buffer.channel(channel).unwrap();
        assert_eq!(samples.len(), 128);
        assert!(samples.iter().all(|s| f32::from_bits(*s) == 0.0));
    }
    assert!(buffer.channel(2).is_none());
}

#[test]
fn stream_ends_when_the_producer_is_gone() {
    let (render, _microphone, mut stream) = pair(2, 1);
    assert_eq!(render.render(&block(1, 0.5)), CaptureOutcome::Delivered);
    drop(render);
    let last = stream.next().unwrap();
    assert_eq!(last.channel(0).unwrap()[0], 0.5f32.to_bits());
    assert!(stream.next().is_none());
    assert!(stream.next().is_none());
}

#[test]
fn block_is_dropped_when_the_consumer_is_gone() {
    let (sender, receiver) = crossbeam_channel::bounded::<AudioBuffer>(2);
    let render = MicrophoneRender::new(1, 44100, sender);
    drop(receiver);
    assert_eq!(render.render(&block(1, 0.0)), CaptureOutcome::Dropped);
}

#[test]
fn block_of_the_wrong_size_is_rejected() {
    let (render, _microphone, mut stream) = pair(2, 2);
    let mut data = block(2, 0.25);
    data.pop();
    assert_eq!(render.render(&data), CaptureOutcome::Rejected);
    assert_eq!(render.render(&[]), CaptureOutcome::Rejected);
    let buffer = stream.next().unwrap();
    assert!(buffer.channel(1).unwrap().iter().all(|s| *s == 0));
}

#[test]
fn settle_maps_each_hand_off_to_its_outcome() {
    assert_eq!(MicrophoneRender::settle(SendStatus::Sent), CaptureOutcome::Delivered);
    assert_eq!(MicrophoneRender::settle(SendStatus::Full), CaptureOutcome::Dropped);
    assert_eq!(MicrophoneRender::settle(SendStatus::Disconnected), CaptureOutcome::Dropped);
}

#[test]
fn deliver_forwards_substitutes_or_ends() {
    let (_render, _microphone, stream) = pair(1, 3);
    let sent = AudioBuffer::from_interleaved(&block(1, 7.0), 1, 8000).unwrap();
    let forwarded = stream.deliver(Received::Message(sent)).unwrap();
    assert_eq!(forwarded.number_of_channels(), 1);
    assert_eq!(forwarded.sample_rate(), 8000);
    assert_eq!(forwarded.channel(0).unwrap()[5], 7.005f32.to_bits());
    let silence = stream.deliver(Received::Empty).unwrap();
    assert_eq!(silence.number_of_channels(), 3);
    assert_eq!(silence.sample_rate(), 48000);
    assert!(stream.deliver(Received::Disconnected).is_none());
}

#[test]
fn interleaved_samples_are_split_by_channel() {
    let mut data = Vec::new();
    for frame in 0..RENDER_QUANTUM_SIZE {
        data.push(frame as u32);
        data.push(1000 + frame as u32);
        data.push(2000 + frame as u32);
    }
    let buffer = AudioBuffer::from_interleaved(&data, 3, 44100).unwrap();
    assert_eq!(buffer.number_of_channels(), 3);
    assert_eq!(buffer.channel(0).unwrap()[0], 0);
    assert_eq!(buffer.channel(0).unwrap()[127], 127);
    assert_eq!(buffer.channel(1).unwrap()[1], 1001);
    assert_eq!(buffer.channel(2).unwrap()[64], 2064);
}

#[test]
fn channel_counts_outside_the_range_are_refused() {
    assert!(AudioBuffer::silent(0, 44100).is_none());
    assert!(AudioBuffer::silent(MAX_CHANNELS + 1, 44100).is_none());
    assert!(AudioBuffer::silent(MAX_CHANNELS, 44100).is_some());
    assert!(AudioBuffer::from_interleaved(&[], 0, 44100).is_none());
    let (_sender, receiver) = crossbeam_channel::bounded::<AudioBuffer>(1);
    assert_eq!(
        Microphone::new(receiver, 0, 44100).err(),
        Some(ConfigurationError::InvalidChannelCount)
    );
    let (_sender, receiver) = crossbeam_channel::bounded::<AudioBuffer>(1);
    assert_eq!(
        Microphone::new(receiver, 33, 44100).err(),
        Some(ConfigurationError::InvalidChannelCount)
    );
}

#[test]
fn lifecycle_toggles_the_backend_only_on_a_change() {
    let (_render, mut microphone, _stream) = pair(1, 1);
    assert_eq!(microphone.resume(), None);
    assert_eq!(microphone.suspend(), Some(BackendCommand::Pause));
    assert_eq!(microphone.suspend(), None);
    assert_eq!(microphone.resume(), Some(BackendCommand::Play));
    assert_eq!(microphone.close(), BackendCommand::Release);
}

#[test]
fn stream_outlives_the_microphone_handle() {
    let (render, microphone, mut stream) = pair(2, 1);
    drop(microphone);
    assert_eq!(render.render(&block(1, 3.0)), CaptureOutcome::Delivered);
    let buffer = stream.next().unwrap();
    assert_eq!(buffer.channel(0).unwrap()[0], 3.0f32.to_bits());
}
