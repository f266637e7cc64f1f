use audio_graph::buffer::AudioBuffer;
use audio_graph::error::ConfigurationError;
use audio_graph::mixing::{
    is_blend, mix_terms, route, ChannelConfig, ChannelCountMode, ChannelInterpretation, Term,
    Weight,
};
use audio_graph::{MAX_CHANNELS, RENDER_QUANTUM_SIZE};

fn buffer(channels: usize) -> AudioBuffer {
    let mut data = Vec::new();
    for frame in 0..RENDER_QUANTUM_SIZE {
        for channel in 0..channels {
            data.push(((channel as f32) + (frame as f32) / 1000.0).to_bits());
        }
    }
    AudioBuffer::from_interleaved(&data, channels, 48000).unwrap()
}

fn unit(input: usize) -> Term {
    Term { input, weight: Weight::Unit }
}

fn half(input: usize) -> Term {
    Term { input, weight: Weight::Half }
}

fn root(input: usize) -> Term {
    Term { input, weight: Weight::RootHalf }
}

#[test]
fn mono_into_stereo_speakers_is_duplicated() {
    let mono = buffer(1);
    let stereo = route(&mono, 2, ChannelInterpretation::Speakers).unwrap();
    assert_eq!(stereo.number_of_channels(), 2);
    assert_eq!(stereo.sample_rate(), 48000);
    assert_eq!(stereo.channel(0).unwrap(), mono.channel(0).unwrap());
    assert_eq!(stereo.channel(1).unwrap(), mono.channel(0).unwrap());
    assert_eq!(stereo.channel(1).unwrap()[3], 0.003f32.to_bits());
}

#[test]
fn discrete_mix_pads_with_silence_and_drops_the_surplus() {
    let stereo = buffer(2);
    let wide = route(&stereo, 4, ChannelInterpretation::Discrete).unwrap();
    assert_eq!(wide.number_of_channels(), 4);
    assert_eq!(wide.channel(0).unwrap(), stereo.channel(0).unwrap());
    assert_eq!(wide.channel(1).unwrap(), stereo.channel(1).unwrap());
    assert!(wide.channel(2).unwrap().iter().all(|s| *s == 0));
    assert!(wide.channel(3).unwrap().iter().all(|s| *s == 0));
    let narrow = route(&stereo, 1, ChannelInterpretation::Discrete).unwrap();
    assert_eq!(narrow.number_of_channels(), 1);
    assert_eq!(narrow.channel(0).unwrap(), stereo.channel(0).unwrap());
}

#[test]
fn stereo_inputs_into_discrete_stereo_keep_their_channels() {
    // Each input is taken channel for channel; what is left to the caller
    // is the addition of the channels of the same number.
    let first = buffer(2);
    let second = buffer(2);
    let a = route(&first, 2, ChannelInterpretation::Discrete).unwrap();
    let b = route(&second, 2, ChannelInterpretation::Discrete).unwrap();
    for channel in 0..2 {
        assert_eq!(mix_terms(2, 2, ChannelInterpretation::Discrete, channel), vec![unit(channel)]);
        let left = a.channel(channel).unwrap();
        let right = b.channel(channel).unwrap();
        for frame in 0..RENDER_QUANTUM_SIZE {
            let sum = f32::from_bits(left[frame]) + f32::from_bits(right[frame]);
            let expected = 2.0 * ((channel as f32) + (frame as f32) / 1000.0);
            assert_eq!(sum, expected);
        }
    }
}

#[test]
fn speaker_up_mixes_copy_or_silence() {
    let s = ChannelInterpretation::Speakers;
    assert_eq!(mix_terms(1, 4, s, 0), vec![unit(0)]);
    assert_eq!(mix_terms(1, 4, s, 1), vec![unit(0)]);
    assert_eq!(mix_terms(1, 4, s, 2), vec![]);
    assert_eq!(mix_terms(1, 6, s, 2), vec![unit(0)]);
    assert_eq!(mix_terms(1, 6, s, 0), vec![]);
    assert_eq!(mix_terms(2, 6, s, 1), vec![unit(1)]);
    assert_eq!(mix_terms(2, 6, s, 4), vec![]);
    assert_eq!(mix_terms(4, 6, s, 4), vec![unit(2)]);
    assert_eq!(mix_terms(4, 6, s, 5), vec![unit(3)]);
    assert_eq!(mix_terms(4, 6, s, 2), vec![]);
    let quad = buffer(4);
    let surround = route(&quad, 6, s).unwrap();
    assert_eq!(surround.channel(4).unwrap(), quad.channel(2).unwrap());
    assert_eq!(surround.channel(5).unwrap(), quad.channel(3).unwrap());
    assert!(surround.channel(3).unwrap().iter().all(|x| *x == 0));
}

#[test]
fn speaker_down_mixes_blend_with_the_standard_factors() {
    let s = ChannelInterpretation::Speakers;
    assert_eq!(mix_terms(2, 1, s, 0), vec![half(0), half(1)]);
    assert_eq!(
        mix_terms(4, 1, s, 0),
        vec![
            Term { input: 0, weight: Weight::Quarter },
            Term { input: 1, weight: Weight::Quarter },
            Term { input: 2, weight: Weight::Quarter },
            Term { input: 3, weight: Weight::Quarter },
        ]
    );
    assert_eq!(mix_terms(6, 1, s, 0), vec![root(0), root(1), unit(2), half(4), half(5)]);
    assert_eq!(mix_terms(4, 2, s, 0), vec![half(0), half(2)]);
    assert_eq!(mix_terms(4, 2, s, 1), vec![half(1), half(3)]);
    assert_eq!(mix_terms(6, 2, s, 0), vec![unit(0), root(2), root(4)]);
    assert_eq!(mix_terms(6, 2, s, 1), vec![unit(1), root(2), root(5)]);
    assert_eq!(mix_terms(6, 4, s, 0), vec![unit(0), root(2)]);
    assert_eq!(mix_terms(6, 4, s, 1), vec![unit(1), root(2)]);
    assert_eq!(mix_terms(6, 4, s, 2), vec![unit(4)]);
    assert_eq!(mix_terms(6, 4, s, 3), vec![unit(5)]);
    assert!(is_blend(2, 1, s));
    assert!(is_blend(6, 4, s));
    assert!(!is_blend(1, 2, s));
    assert!(!is_blend(2, 1, ChannelInterpretation::Discrete));
    assert!(route(&buffer(2), 1, s).is_none());
}

#[test]
fn counts_without_a_layout_are_mixed_by_number() {
    let s = ChannelInterpretation::Speakers;
    assert_eq!(mix_terms(3, 2, s, 1), vec![unit(1)]);
    assert_eq!(mix_terms(2, 3, s, 2), vec![]);
    assert_eq!(mix_terms(2, 2, s, 1), vec![unit(1)]);
    assert_eq!(mix_terms(2, 4, s, 4), vec![]);
    assert!(!is_blend(5, 2, s));
    let three = buffer(3);
    let two = route(&three, 2, s).unwrap();
    assert_eq!(two.channel(1).unwrap(), three.channel(1).unwrap());
}

#[test]
fn routing_to_an_invalid_count_fails() {
    let stereo = buffer(2);
    assert!(route(&stereo, 0, ChannelInterpretation::Discrete).is_none());
    assert!(route(&stereo, MAX_CHANNELS + 1, ChannelInterpretation::Discrete).is_none());
    assert!(route(&stereo, MAX_CHANNELS, ChannelInterpretation::Discrete).is_some());
}

#[test]
fn channel_configuration_checks_the_count() {
    let m = ChannelCountMode::Max;
    let s = ChannelInterpretation::Speakers;
    assert_eq!(ChannelConfig::new(0, m, s).err(), Some(ConfigurationError::InvalidChannelCount));
    assert_eq!(ChannelConfig::new(33, m, s).err(), Some(ConfigurationError::InvalidChannelCount));
    let config = ChannelConfig::new(2, ChannelCountMode::ClampedMax, ChannelInterpretation::Discrete).unwrap();
    assert_eq!(config.count(), 2);
    assert_eq!(config.mode(), ChannelCountMode::ClampedMax);
    assert_eq!(config.interpretation(), ChannelInterpretation::Discrete);
}

#[test]
fn computed_channel_count_follows_the_mode() {
    let s = ChannelInterpretation::Speakers;
    let max = ChannelConfig::new(2, ChannelCountMode::Max, s).unwrap();
    assert_eq!(max.computed_channels(0), 1);
    assert_eq!(max.computed_channels(1), 1);
    assert_eq!(max.computed_channels(6), 6);
    assert_eq!(max.computed_channels(40), 32);
    let clamped = ChannelConfig::new(2, ChannelCountMode::ClampedMax, s).unwrap();
    assert_eq!(clamped.computed_channels(0), 1);
    assert_eq!(clamped.computed_channels(1), 1);
    assert_eq!(clamped.computed_channels(2), 2);
    assert_eq!(clamped.computed_channels(6), 2);
    let explicit = ChannelConfig::new(4, ChannelCountMode::Explicit, s).unwrap();
    assert_eq!(explicit.computed_channels(0), 4);
    assert_eq!(explicit.computed_channels(1), 4);
    assert_eq!(explicit.computed_channels(6), 4);
}

#[test]
fn buffer_from_channels_checks_the_shape() {
    let good = vec![vec![7u32; 128], vec![9u32; 128]];
    let buffer = AudioBuffer::from_channels(good, 22050).unwrap();
    assert_eq!(buffer.number_of_channels(), 2);
    assert_eq!(buffer.channel(1).unwrap()[127], 9);
    assert_eq!(buffer.sample_rate(), 22050);
    assert!(AudioBuffer::from_channels(vec![], 22050).is_none());
    assert!(AudioBuffer::from_channels(vec![vec![0u32; 127]], 22050).is_none());
    assert!(AudioBuffer::from_channels(vec![vec![0u32; 128], vec![0u32; 129]], 22050).is_none());
    assert!(AudioBuffer::from_channels(vec![vec![0u32; 128]; 33], 22050).is_none());
}
