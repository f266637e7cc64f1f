use audio_graph::buffer::AudioBuffer;
use audio_graph::mixing::{route, ChannelConfig, ChannelCountMode, ChannelInterpretation};
use audio_graph::param::{AutomationEvent, AutomationRate, ParamStore, Segment};
use audio_graph::render::topology::{NodeShape, ParamId};
use audio_graph::render::order::{Edge, NodeId};
use audio_graph::render::thread::{ControlMessage, RenderThread};
use audio_graph::RENDER_QUANTUM_SIZE;

const SAMPLE_RATE: u32 = 48000;
const DESTINATION: NodeId = NodeId(0);
const OSCILLATOR: NodeId = NodeId(1);
const GAIN: NodeId = NodeId(2);
const GAIN_VALUE: ParamId = ParamId(0);

fn shape(inputs: usize, outputs: usize, sink: bool) -> NodeShape {
    NodeShape {
        inputs,
        outputs,
        config: ChannelConfig::new(1, ChannelCountMode::Explicit, ChannelInterpretation::Speakers)
            .unwrap(),
        sink,
    }
}

fn mono(samples: &[f32]) -> AudioBuffer {
    let bits: Vec<u32> = samples.iter().map(|s| s.to_bits()).collect();
    AudioBuffer::from_interleaved(&bits, 1, SAMPLE_RATE).unwrap()
}

fn peak(buffer: &AudioBuffer) -> f32 {
    let mut peak = 0.0f32;
    for channel in 0..buffer.number_of_channels() {
        for sample in buffer.channel(channel).unwrap() {
            peak = peak.max(f32::from_bits(*sample).abs());
        }
    }
    peak
}

/// The gain at time `t` of a parameter whose only event is a linear ramp.
fn gain_at(params: &ParamStore, t: f64) -> f32 {
    let timeline = params.timeline(GAIN_VALUE).unwrap();
    match timeline.governing(t.to_bits()) {
        Segment::Intrinsic => 1.0,
        Segment::Hold { event } => match timeline.event(event).unwrap() {
            AutomationEvent::LinearRampToValue { value, .. } => f32::from_bits(*value),
            _ => unreachable!(),
        },
        Segment::Ramp { to } => match timeline.event(to).unwrap() {
            AutomationEvent::LinearRampToValue { time, value } => {
                let end = f64::from_bits(*time);
                1.0 + (f32::from_bits(*value) - 1.0) * (t / end) as f32
            }
            _ => unreachable!(),
        },
    }
}

#[test]
fn oscillator_through_a_fading_gain_ends_in_silence() {
    let mut thread = RenderThread::new();
    let mut params = ParamStore::new();
    assert!(thread.apply(ControlMessage::AddNode { id: DESTINATION, shape: shape(1, 0, true) }));
    assert!(thread.apply(ControlMessage::AddNode { id: OSCILLATOR, shape: shape(0, 1, false) }));
    assert!(thread.apply(ControlMessage::AddNode { id: GAIN, shape: shape(1, 1, false) }));
    let into_gain = Edge { source: OSCILLATOR, output: 0, destination: GAIN, input: 0 };
    let into_destination = Edge { source: GAIN, output: 0, destination: DESTINATION, input: 0 };
    assert!(thread.apply(ControlMessage::Connect { edge: into_gain }));
    assert!(thread.apply(ControlMessage::Connect { edge: into_destination }));
    assert!(params.add(GAIN_VALUE, GAIN, AutomationRate::A));
    assert!(params.schedule(
        GAIN_VALUE,
        AutomationEvent::LinearRampToValue { time: 1.0f64.to_bits(), value: 0.0f32.to_bits() },
    ));

    let quanta = SAMPLE_RATE as usize / RENDER_QUANTUM_SIZE;
    let mut first = None;
    let mut last = None;
    let mut oscillator = mono(&[0.0; RENDER_QUANTUM_SIZE]);
    let mut gain = mono(&[0.0; RENDER_QUANTUM_SIZE]);
    for quantum in 0..=quanta {
        let start = thread.current_frame();
        assert_eq!(start, (quantum * RENDER_QUANTUM_SIZE) as u64);
        assert!(thread.begin_quantum());
        let order = thread.plan().unwrap().clone();
        assert_eq!(order, vec![OSCILLATOR, GAIN, DESTINATION]);
        for node in order {
            if node == OSCILLATOR {
                let samples: Vec<f32> = (0..RENDER_QUANTUM_SIZE)
                    .map(|frame| {
                        let t = (start + frame as u64) as f64 / SAMPLE_RATE as f64;
                        (2.0 * std::f64::consts::PI * 3000.0 * t).sin() as f32
                    })
                    .collect();
                oscillator = mono(&samples);
                assert!(thread.report(node, true));
            } else if node == GAIN {
                let sources = thread.topology().incoming(node, 0);
                assert_eq!(sources, vec![into_gain]);
                let channels = thread.topology().shape(node).unwrap().config.computed_channels(1);
                let input = route(&oscillator, channels, ChannelInterpretation::Speakers).unwrap();
                let samples: Vec<f32> = (0..RENDER_QUANTUM_SIZE)
                    .map(|frame| {
                        let t = (start + frame as u64) as f64 / SAMPLE_RATE as f64;
                        f32::from_bits(input.channel(0).unwrap()[frame]) * gain_at(&params, t)
                    })
                    .collect();
                gain = mono(&samples);
                assert!(thread.report(node, false));
            } else {
                assert_eq!(thread.topology().incoming(node, 0), vec![into_destination]);
                if quantum == 0 {
                    first = Some(peak(&gain));
                }
                last = Some(peak(&gain));
                assert!(thread.report(node, false));
            }
        }
        assert_eq!(thread.end_quantum().unwrap(), Vec::<NodeId>::new());
        let now = thread.current_frame() as f64 / SAMPLE_RATE as f64;
        params.advance(now.to_bits());
    }
    assert!((first.unwrap() - 1.0).abs() < 0.01);
    assert!(last.unwrap().abs() < 1e-6);
    assert_eq!(thread.current_frame(), ((quanta + 1) * RENDER_QUANTUM_SIZE) as u64);
}
