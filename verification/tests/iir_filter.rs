use audio_graph::channel::{Received, SendStatus};
use audio_graph::mixing::{ChannelConfig, ChannelCountMode, ChannelInterpretation};
use audio_graph::error::ConfigurationError;
use audio_graph::node::iir_filter::PendingQuery;
use audio_graph::param::AutomationRate;
use audio_graph::node::iir_filter::{
    Answer, Coefficients, IirFilterInit, IirFilterNode, IirFilterOptions, IirFilterParams,
    IirFilterRenderer, IirFilterType, Poll, QueryError, DEFAULT_DETUNE, DEFAULT_FREQUENCY,
    DEFAULT_GAIN, DEFAULT_Q, HIGHEST, HIGHEST_DETUNE, LOWEST, LOWEST_DETUNE, LOWEST_FREQUENCY,
};
use audio_graph::render::topology::ParamId;

const ALL: [IirFilterType; 8] = [
    IirFilterType::Lowpass,
    IirFilterType::Highpass,
    IirFilterType::Bandpass,
    IirFilterType::Notch,
    IirFilterType::Allpass,
    IirFilterType::Peaking,
    IirFilterType::Lowshelf,
    IirFilterType::Highshelf,
];

fn params() -> IirFilterParams {
    IirFilterParams { q: ParamId(1), detune: ParamId(2), frequency: ParamId(3), gain: ParamId(4) }
}

fn options(type_: IirFilterType) -> IirFilterOptions {
    IirFilterOptions {
        channel_config: ChannelConfig::new(
            2,
            ChannelCountMode::Max,
            ChannelInterpretation::Speakers,
        )
        .unwrap(),
        feedforward: Vec::new(),
        feedback: Vec::new(),
        q: None,
        detune: None,
        frequency: None,
        gain: None,
        type_: Some(type_),
    }
}

fn pair(type_: IirFilterType) -> (IirFilterNode, IirFilterRenderer) {
    IirFilterNode::new(44100, 22050.0f32.to_bits(), params(), Some(options(type_))).ok().unwrap()
}

fn coefficients(seed: f32) -> Coefficients {
    Coefficients {
        b0: seed.to_bits(),
        b1: (seed + 1.0).to_bits(),
        b2: (seed + 2.0).to_bits(),
        a0: (seed + 3.0).to_bits(),
        a1: (seed + 4.0).to_bits(),
        a2: (seed + 5.0).to_bits(),
    }
}

#[test]
fn filter_types_are_numbered_from_zero() {
    for (number, type_) in ALL.iter().enumerate() {
        assert_eq!(type_.code(), number as u32);
        assert_eq!(IirFilterType::from_code(number as u32), Some(*type_));
        assert_eq!(IirFilterType::decode(type_.code()), *type_);
    }
    assert_eq!(IirFilterType::from_code(8), None);
    assert_eq!(IirFilterType::from_code(u32::MAX), None);
    assert_eq!(IirFilterType::decode(8), IirFilterType::Lowpass);
}

#[test]
fn node_has_one_input_one_output_and_four_parameters() {
    let (node, render) = pair(IirFilterType::Lowpass);
    assert_eq!(node.number_of_inputs(), 1);
    assert_eq!(node.number_of_outputs(), 1);
    assert_eq!(node.channel_config_raw().count(), 2);
    assert_eq!(node.q(), ParamId(1));
    assert_eq!(node.detune(), ParamId(2));
    assert_eq!(node.frequency(), ParamId(3));
    assert_eq!(node.gain(), ParamId(4));
    assert_eq!(render.params(), params());
    assert_eq!(render.sample_rate(), 44100);
    assert!(!render.tail_time());
}

#[test]
fn render_side_reads_the_type_that_was_set() {
    let (mut node, render) = pair(IirFilterType::Notch);
    assert_eq!(node.type_(), IirFilterType::Notch);
    assert_eq!(render.filter_type(), IirFilterType::Notch);
    for type_ in ALL {
        node.set_type(type_);
        assert_eq!(node.type_(), type_);
        assert_eq!(render.filter_type(), type_);
    }
}

#[test]
fn request_is_answered_with_the_coefficients_in_use() {
    let (node, render) = pair(IirFilterType::Lowpass);
    assert_eq!(render.answer(coefficients(0.5)), Answer::Idle);
    let pending = node.request().ok().unwrap();
    assert_eq!(pending.poll(), Poll::Pending);
    assert_eq!(pending.wait(3), Err(QueryError::Timeout));
    assert_eq!(render.answer(coefficients(1.5)), Answer::Replied);
    assert_eq!(render.answer(coefficients(2.5)), Answer::Idle);
    assert_eq!(pending.wait(1), Ok(coefficients(1.5)));
    // The request was answered once: there will be no second answer.
    assert_eq!(pending.poll(), Poll::Failed(QueryError::Disconnected));
}

#[test]
fn second_request_waits_until_the_first_is_taken() {
    let (node, render) = pair(IirFilterType::Lowpass);
    let first = node.request().ok().unwrap();
    assert_eq!(node.request().err(), Some(QueryError::Busy));
    assert_eq!(render.answer(coefficients(4.0)), Answer::Replied);
    let second = node.request().ok().unwrap();
    assert_eq!(render.answer(coefficients(5.0)), Answer::Replied);
    assert_eq!(first.wait(1), Ok(coefficients(4.0)));
    assert_eq!(second.wait(1), Ok(coefficients(5.0)));
}

#[test]
fn pending_request_fails_once_it_cannot_be_answered() {
    let (node, render) = pair(IirFilterType::Lowpass);
    let pending = node.request().ok().unwrap();
    drop(render);
    // The request still lies in the queue, which the node keeps alive.
    assert_eq!(pending.wait(5), Err(QueryError::Timeout));
    drop(node);
    assert_eq!(pending.poll(), Poll::Failed(QueryError::Disconnected));
    assert_eq!(pending.wait(5), Err(QueryError::Disconnected));
}

#[test]
fn request_without_a_poll_times_out() {
    let (node, render) = pair(IirFilterType::Lowpass);
    assert_eq!(node.coefficients(0), Err(QueryError::Timeout));
    // The requester gave up: its answer has nowhere to go.
    assert_eq!(render.answer(coefficients(2.0)), Answer::Unanswered);
    assert_eq!(render.answer(coefficients(2.0)), Answer::Idle);
}

#[test]
fn request_that_is_never_answered_times_out() {
    let (node, _render) = pair(IirFilterType::Lowpass);
    assert_eq!(node.coefficients(100), Err(QueryError::Timeout));
    assert_eq!(node.coefficients(100), Err(QueryError::Busy));
}

#[test]
fn request_fails_when_the_render_side_is_gone() {
    let (node, render) = pair(IirFilterType::Lowpass);
    drop(render);
    assert_eq!(node.coefficients(10), Err(QueryError::Disconnected));
}

#[test]
fn poll_maps_each_receive_to_its_outcome() {
    assert_eq!(
        IirFilterNode::poll(Received::Message(coefficients(3.0))),
        Poll::Ready(coefficients(3.0))
    );
    assert_eq!(IirFilterNode::poll(Received::Empty), Poll::Pending);
    assert_eq!(
        IirFilterNode::poll(Received::Disconnected),
        Poll::Failed(QueryError::Disconnected)
    );
    assert_eq!(IirFilterNode::refused(SendStatus::Sent), None);
    assert_eq!(IirFilterNode::refused(SendStatus::Full), Some(QueryError::Busy));
    assert_eq!(IirFilterNode::refused(SendStatus::Disconnected), Some(QueryError::Disconnected));
    assert_eq!(IirFilterRenderer::settle(SendStatus::Sent), Answer::Replied);
    assert_eq!(IirFilterRenderer::settle(SendStatus::Full), Answer::Unanswered);
    assert_eq!(IirFilterRenderer::settle(SendStatus::Disconnected), Answer::Unanswered);
}

#[test]
fn constants_are_the_bit_patterns_of_their_values() {
    assert_eq!(DEFAULT_Q, 1.0f32.to_bits());
    assert_eq!(DEFAULT_DETUNE, 0.0f32.to_bits());
    assert_eq!(DEFAULT_FREQUENCY, 350.0f32.to_bits());
    assert_eq!(DEFAULT_GAIN, 0.0f32.to_bits());
    assert_eq!(LOWEST, f32::MIN.to_bits());
    assert_eq!(HIGHEST, f32::MAX.to_bits());
    assert_eq!(LOWEST_DETUNE, (-153600.0f32).to_bits());
    assert_eq!(HIGHEST_DETUNE, 153600.0f32.to_bits());
    assert_eq!(LOWEST_FREQUENCY, 0.0f32.to_bits());
}

#[test]
fn filter_without_options_starts_with_the_defaults() {
    let (node, render) =
        IirFilterNode::new(48000, 24000.0f32.to_bits(), params(), None).ok().unwrap();
    assert_eq!(node.channel_config_raw().count(), 2);
    assert_eq!(node.channel_config_raw().mode(), ChannelCountMode::Max);
    assert_eq!(node.channel_config_raw().interpretation(), ChannelInterpretation::Speakers);
    assert_eq!(node.type_(), IirFilterType::Lowpass);
    assert_eq!(
        render.init(),
        IirFilterInit {
            q: 1.0f32.to_bits(),
            detune: 0.0f32.to_bits(),
            frequency: 350.0f32.to_bits(),
            gain: 0.0f32.to_bits(),
            type_: IirFilterType::Lowpass,
        }
    );
    let ranges = render.ranges();
    assert_eq!(f32::from_bits(ranges.q.min_value()), f32::MIN);
    assert_eq!(f32::from_bits(ranges.q.max_value()), f32::MAX);
    assert_eq!(f32::from_bits(ranges.q.default_value()), 1.0);
    assert_eq!(f32::from_bits(ranges.detune.min_value()), -153600.0);
    assert_eq!(f32::from_bits(ranges.detune.max_value()), 153600.0);
    assert_eq!(f32::from_bits(ranges.frequency.min_value()), 0.0);
    assert_eq!(f32::from_bits(ranges.frequency.max_value()), 24000.0);
    assert_eq!(f32::from_bits(ranges.frequency.default_value()), 350.0);
    assert_eq!(f32::from_bits(ranges.gain.default_value()), 0.0);
}

#[test]
fn filter_starts_with_what_was_asked_for_held_to_the_ranges() {
    let mut asked = options(IirFilterType::Peaking);
    asked.channel_config =
        ChannelConfig::new(1, ChannelCountMode::Explicit, ChannelInterpretation::Discrete).unwrap();
    asked.q = Some(4.0f32.to_bits());
    asked.detune = Some(200000.0f32.to_bits());
    asked.frequency = Some((-5.0f32).to_bits());
    asked.gain = Some((-12.0f32).to_bits());
    let (node, render) =
        IirFilterNode::new(48000, 24000.0f32.to_bits(), params(), Some(asked)).ok().unwrap();
    assert_eq!(node.channel_config_raw().count(), 1);
    assert_eq!(node.type_(), IirFilterType::Peaking);
    assert_eq!(render.filter_type(), IirFilterType::Peaking);
    let init = render.init();
    assert_eq!(f32::from_bits(init.q), 4.0);
    assert_eq!(f32::from_bits(init.detune), 153600.0);
    assert_eq!(f32::from_bits(init.frequency), 0.0);
    assert_eq!(f32::from_bits(init.gain), -12.0);
    assert_eq!(init.type_, IirFilterType::Peaking);

    let mut high = options(IirFilterType::Lowpass);
    high.frequency = Some(30000.0f32.to_bits());
    high.type_ = None;
    let (_, render) =
        IirFilterNode::new(48000, 24000.0f32.to_bits(), params(), Some(high)).ok().unwrap();
    assert_eq!(f32::from_bits(render.init().frequency), 24000.0);
    assert_eq!(render.init().type_, IirFilterType::Lowpass);
}

#[test]
fn filter_needs_room_for_the_default_frequency() {
    let low = IirFilterNode::new(600, 300.0f32.to_bits(), params(), None);
    assert_eq!(low.err(), Some(ConfigurationError::InvalidParamRange));
    let edge = IirFilterNode::new(700, 350.0f32.to_bits(), params(), None);
    assert!(edge.is_ok());
}

#[test]
fn look_without_a_request_does_nothing() {
    assert_eq!(IirFilterRenderer::respond(Received::Empty, coefficients(1.0)), Answer::Idle);
    assert_eq!(IirFilterRenderer::respond(Received::Disconnected, coefficients(1.0)), Answer::Idle);
}

#[test]
fn wait_goes_on_by_what_a_look_found() {
    let c = coefficients(9.0);
    for left in [0usize, 1, 2, 100] {
        assert_eq!(PendingQuery::step(Poll::Ready(c), left), Some(Ok(c)));
        assert_eq!(
            PendingQuery::step(Poll::Failed(QueryError::Disconnected), left),
            Some(Err(QueryError::Disconnected))
        );
    }
    assert_eq!(PendingQuery::step(Poll::Pending, 1), Some(Err(QueryError::Timeout)));
    assert_eq!(PendingQuery::step(Poll::Pending, 0), Some(Err(QueryError::Timeout)));
    assert_eq!(PendingQuery::step(Poll::Pending, 2), None);
    assert_eq!(PendingQuery::step(Poll::Pending, usize::MAX), None);
}

#[test]
fn filter_parameters_are_evaluated_per_frame_and_the_node_has_one_port_each_way() {
    let (node, render) = pair(IirFilterType::Lowpass);
    assert_eq!(render.automation_rate(), AutomationRate::A);
    let shape = node.shape();
    assert_eq!(shape.inputs, 1);
    assert_eq!(shape.outputs, 1);
    assert!(!shape.sink);
    assert_eq!(shape.config.count(), 2);
}
