//! Channel configuration of a node, and the mixing of the buffers that
//! arrive at one of its inputs to the channel count the node works with.

use vstd::prelude::*;
use crate::buffer::{
    quantum_shaped, silent_samples, valid_channel_count, AudioBuffer, SILENCE,
};
use crate::error::ConfigurationError;
use crate::{MAX_CHANNELS, RENDER_QUANTUM_SIZE};

verus! {

/// How the channel count of an input follows from what is connected to it.
#[derive(Clone, Copy, Debug, PartialEq, Eq, Structural)]
pub enum ChannelCountMode {
    /// As many channels as the widest connection has.
    Max,
    /// As `Max`, but no more than the configured count.
    ClampedMax,
    /// Exactly the configured count.
    Explicit,
}

/// How channels are matched when counts differ.
#[derive(Clone, Copy, Debug, PartialEq, Eq, Structural)]
pub enum ChannelInterpretation {
    /// Channels are speaker positions, matched by the standard layouts.
    Speakers,
    /// Channels are matched by number; missing ones are silent and surplus
    /// ones are dropped.
    Discrete,
}

/// The channel configuration of a node: a count between one and
/// `MAX_CHANNELS`, a count mode and an interpretation.
#[derive(Clone, Copy, Debug)]
pub struct ChannelConfig {
    count: usize,
    mode: ChannelCountMode,
    interpretation: ChannelInterpretation,
}

/// The channel count of an input whose widest connection has `widest`
/// channels (zero when nothing is connected).
pub open spec fn computed_count(count: int, mode: ChannelCountMode, widest: int) -> int {
    let widest = if widest < 1 {
        1
    } else if widest > MAX_CHANNELS {
        MAX_CHANNELS as int
    } else {
        widest
    };
    match mode {
        ChannelCountMode::Max => widest,
        ChannelCountMode::ClampedMax => if widest < count {
            widest
        } else {
            count
        },
        ChannelCountMode::Explicit => count,
    }
}

impl Default for ChannelConfig {
    /// Two channels, as many as the widest connection has, matched by
    /// speaker positions.
    fn default() -> (r: ChannelConfig)
        ensures
            r.channels() == 2,
            r.count_mode() == ChannelCountMode::Max,
            r.layout() == ChannelInterpretation::Speakers,
    {
        ChannelConfig { count: 2, mode: ChannelCountMode::Max, interpretation: ChannelInterpretation::Speakers }
    }
}

impl ChannelConfig {
    #[verifier::type_invariant]
    spec fn well_formed(&self) -> bool {
        valid_channel_count(self.count as int)
    }

    /// The configured channel count.
    pub closed spec fn channels(&self) -> usize {
        self.count
    }

    /// The configured count mode.
    pub closed spec fn count_mode(&self) -> ChannelCountMode {
        self.mode
    }

    /// The configured interpretation.
    pub closed spec fn layout(&self) -> ChannelInterpretation {
        self.interpretation
    }

    /// A configuration, unless `count` is not between one and
    /// `MAX_CHANNELS`.
    pub fn new(count: usize, mode: ChannelCountMode, interpretation: ChannelInterpretation) -> (r: Result<
        ChannelConfig,
        ConfigurationError,
    >)
        ensures
            r is Ok <==> valid_channel_count(count as int),
            r matches Ok(c) ==> c.channels() == count && c.count_mode() == mode && c.layout()
                == interpretation,
            r matches Err(e) ==> e == ConfigurationError::InvalidChannelCount,
    {
        if count < 1 || count > MAX_CHANNELS {
            Err(ConfigurationError::InvalidChannelCount)
        } else {
            Ok(ChannelConfig { count, mode, interpretation })
        }
    }

    /// The configured channel count.
    pub fn count(&self) -> (r: usize)
        ensures
            r == self.channels(),
            valid_channel_count(r as int),
    {
        proof {
            use_type_invariant(self);
        }
        self.count
    }

    /// The configured count mode.
    pub fn mode(&self) -> (r: ChannelCountMode)
        ensures
            r == self.count_mode(),
    {
        self.mode
    }

    /// The configured interpretation.
    pub fn interpretation(&self) -> (r: ChannelInterpretation)
        ensures
            r == self.layout(),
    {
        self.interpretation
    }

    /// The channel count of an input of the node whose widest connection
    /// has `widest` channels; zero stands for no connection.
    pub fn computed_channels(&self, widest: usize) -> (r: usize)
        ensures
            r == computed_count(self.channels() as int, self.count_mode(), widest as int),
            valid_channel_count(r as int),
    {
        proof {
            use_type_invariant(self);
        }
        let widest = if widest < 1 {
            1
        } else if widest > MAX_CHANNELS {
            MAX_CHANNELS
        } else {
            widest
        };
        match self.mode {
            ChannelCountMode::Max => widest,
            ChannelCountMode::ClampedMax => if widest < self.count {
                widest
            } else {
                self.count
            },
            ChannelCountMode::Explicit => self.count,
        }
    }
}

/// The factor by which a channel enters a mix: one, a half, a quarter, or
/// the square root of a half.
#[derive(Clone, Copy, Debug, PartialEq, Eq, Structural)]
pub enum Weight {
    Unit,
    Half,
    Quarter,
    RootHalf,
}

/// One summand of a mixed channel: a channel of the source, and its factor.
#[derive(Clone, Copy, Debug, PartialEq, Eq, Structural)]
pub struct Term {
    pub input: usize,
    pub weight: Weight,
}

/// The source channel `input` with the given factor.
pub open spec fn term(input: int, weight: Weight) -> Term {
    Term { input: input as usize, weight }
}

/// The channel counts with a speaker layout: mono, stereo, quad and 5.1.
/// The channels of quad are left, right, surround left, surround right;
/// those of 5.1 are left, right, centre, low-frequency, surround left,
/// surround right.
pub open spec fn is_layout(n: int) -> bool {
    n == 1 || n == 2 || n == 4 || n == 6
}

/// Whether a mix from `from` to `to` channels goes by speaker positions;
/// if not, it goes by channel number.
pub open spec fn by_speakers(from: int, to: int, interpretation: ChannelInterpretation) -> bool {
    interpretation == ChannelInterpretation::Speakers && is_layout(from) && is_layout(to) && from != to
}

/// Whether a mix from `from` to `to` channels adds channels up, and so
/// needs arithmetic on the samples.
pub open spec fn blends(from: int, to: int, interpretation: ChannelInterpretation) -> bool {
    by_speakers(from, to, interpretation) && to < from
}

/// What channel `channel` of a mix by channel number is made of: the
/// source channel of the same number, or nothing where the source has no
/// such channel.
pub open spec fn discrete_terms(from: int, channel: int) -> Seq<Term> {
    if 0 <= channel < from {
        seq![term(channel, Weight::Unit)]
    } else {
        Seq::empty()
    }
}

/// What channel `channel` of a mix by speaker positions is made of.
pub open spec fn speaker_terms(from: int, to: int, channel: int) -> Seq<Term> {
    if from == 1 && to == 2 {
        if channel == 0 || channel == 1 {
            seq![term(0, Weight::Unit)]
        } else {
            Seq::empty()
        }
    } else if from == 1 && to == 4 {
        if channel == 0 || channel == 1 {
            seq![term(0, Weight::Unit)]
        } else {
            Seq::empty()
        }
    } else if from == 1 && to == 6 {
        if channel == 2 {
            seq![term(0, Weight::Unit)]
        } else {
            Seq::empty()
        }
    } else if from == 2 && (to == 4 || to == 6) {
        if channel == 0 || channel == 1 {
            seq![term(channel, Weight::Unit)]
        } else {
            Seq::empty()
        }
    } else if from == 4 && to == 6 {
        if channel == 0 || channel == 1 {
            seq![term(channel, Weight::Unit)]
        } else if channel == 4 {
            seq![term(2, Weight::Unit)]
        } else if channel == 5 {
            seq![term(3, Weight::Unit)]
        } else {
            Seq::empty()
        }
    } else if from == 2 && to == 1 {
        if channel == 0 {
            seq![term(0, Weight::Half), term(1, Weight::Half)]
        } else {
            Seq::empty()
        }
    } else if from == 4 && to == 1 {
        if channel == 0 {
            seq![
                term(0, Weight::Quarter),
                term(1, Weight::Quarter),
                term(2, Weight::Quarter),
                term(3, Weight::Quarter),
            ]
        } else {
            Seq::empty()
        }
    } else if from == 6 && to == 1 {
        if channel == 0 {
            seq![
                term(0, Weight::RootHalf),
                term(1, Weight::RootHalf),
                term(2, Weight::Unit),
                term(4, Weight::Half),
                term(5, Weight::Half),
            ]
        } else {
            Seq::empty()
        }
    } else if from == 4 && to == 2 {
        if channel == 0 {
            seq![term(0, Weight::Half), term(2, Weight::Half)]
        } else if channel == 1 {
            seq![term(1, Weight::Half), term(3, Weight::Half)]
        } else {
            Seq::empty()
        }
    } else if from == 6 && to == 2 {
        if channel == 0 {
            seq![term(0, Weight::Unit), term(2, Weight::RootHalf), term(4, Weight::RootHalf)]
        } else if channel == 1 {
            seq![term(1, Weight::Unit), term(2, Weight::RootHalf), term(5, Weight::RootHalf)]
        } else {
            Seq::empty()
        }
    } else if from == 6 && to == 4 {
        if channel == 0 {
            seq![term(0, Weight::Unit), term(2, Weight::RootHalf)]
        } else if channel == 1 {
            seq![term(1, Weight::Unit), term(2, Weight::RootHalf)]
        } else if channel == 2 {
            seq![term(4, Weight::Unit)]
        } else if channel == 3 {
            seq![term(5, Weight::Unit)]
        } else {
            Seq::empty()
        }
    } else {
        Seq::empty()
    }
}

/// What channel `channel` of a buffer mixed from `from` to `to` channels is
/// made of: the sum of the listed source channels, each times its factor;
/// silence where nothing is listed.
pub open spec fn terms(from: int, to: int, interpretation: ChannelInterpretation, channel: int) -> Seq<Term> {
    if channel < 0 || channel >= to {
        Seq::empty()
    } else if by_speakers(from, to, interpretation) {
        speaker_terms(from, to, channel)
    } else {
        discrete_terms(from, channel)
    }
}

/// The channels of `source` mixed to `to` channels, where the mix needs no
/// arithmetic: each channel is a channel of the source, or silent.
pub open spec fn routed(source: Seq<Seq<u32>>, to: int, interpretation: ChannelInterpretation) -> Seq<Seq<u32>> {
    Seq::new(
        to as nat,
        |c: int|
            if terms(source.len() as int, to, interpretation, c).len() == 1 {
                source[terms(source.len() as int, to, interpretation, c)[0].input as int]
            } else {
                silent_samples()
            },
    )
}

/// A mix that does not blend takes each channel from one channel of the
/// source, as it is, or leaves it silent; a mix never reads a channel that
/// the source does not have.
pub proof fn lemma_terms(from: int, to: int, interpretation: ChannelInterpretation, channel: int)
    requires
        0 <= from,
    ensures
        forall|i: int|
            0 <= i < terms(from, to, interpretation, channel).len() ==> (#[trigger] terms(
                from,
                to,
                interpretation,
                channel,
            )[i]).input < from,
        !blends(from, to, interpretation) ==> terms(from, to, interpretation, channel).len() <= 1,
        !blends(from, to, interpretation) && terms(from, to, interpretation, channel).len() == 1 ==> terms(
            from,
            to,
            interpretation,
            channel,
        )[0].weight == Weight::Unit,
{
}

/// A mono buffer mixed by speaker positions to stereo is the mono channel
/// twice.
pub proof fn lemma_mono_to_stereo(source: Seq<Seq<u32>>)
    requires
        source.len() == 1,
    ensures
        routed(source, 2, ChannelInterpretation::Speakers) == seq![source[0], source[0]],
{
}

/// A buffer mixed by channel number keeps its channels, as many as fit,
/// and any further channel is silent.
pub proof fn lemma_discrete(source: Seq<Seq<u32>>, to: int, channel: int)
    requires
        0 <= channel < to <= MAX_CHANNELS,
    ensures
        routed(source, to, ChannelInterpretation::Discrete)[channel] == if channel < source.len() {
            source[channel]
        } else {
            silent_samples()
        },
{
}

fn list1(a: Term) -> (r: Vec<Term>)
    ensures
        r@ == seq![a],
{
    let mut r = Vec::new();
    r.push(a);
    r
}

fn list2(a: Term, b: Term) -> (r: Vec<Term>)
    ensures
        r@ == seq![a, b],
{
    let mut r = Vec::new();
    r.push(a);
    r.push(b);
    r
}

fn list3(a: Term, b: Term, c: Term) -> (r: Vec<Term>)
    ensures
        r@ == seq![a, b, c],
{
    let mut r = Vec::new();
    r.push(a);
    r.push(b);
    r.push(c);
    r
}

fn list4(a: Term, b: Term, c: Term, d: Term) -> (r: Vec<Term>)
    ensures
        r@ == seq![a, b, c, d],
{
    let mut r = Vec::new();
    r.push(a);
    r.push(b);
    r.push(c);
    r.push(d);
    r
}

fn list5(a: Term, b: Term, c: Term, d: Term, e: Term) -> (r: Vec<Term>)
    ensures
        r@ == seq![a, b, c, d, e],
{
    let mut r = Vec::new();
    r.push(a);
    r.push(b);
    r.push(c);
    r.push(d);
    r.push(e);
    r
}

fn unit(input: usize) -> (r: Term)
    ensures
        r == term(input as int, Weight::Unit),
{
    Term { input, weight: Weight::Unit }
}

fn half(input: usize) -> (r: Term)
    ensures
        r == term(input as int, Weight::Half),
{
    Term { input, weight: Weight::Half }
}

fn quarter(input: usize) -> (r: Term)
    ensures
        r == term(input as int, Weight::Quarter),
{
    Term { input, weight: Weight::Quarter }
}

fn root_half(input: usize) -> (r: Term)
    ensures
        r == term(input as int, Weight::RootHalf),
{
    Term { input, weight: Weight::RootHalf }
}

fn has_layout(n: usize) -> (r: bool)
    ensures
        r == is_layout(n as int),
{
    n == 1 || n == 2 || n == 4 || n == 6
}

/// Whether a mix from `from` to `to` channels adds channels up.
pub fn is_blend(from: usize, to: usize, interpretation: ChannelInterpretation) -> (r: bool)
    ensures
        r == blends(from as int, to as int, interpretation),
{
    interpretation == ChannelInterpretation::Speakers && has_layout(from) && has_layout(to) && to < from
}

fn speaker_mix(from: usize, to: usize, channel: usize) -> (r: Vec<Term>)
    ensures
        r@ == speaker_terms(from as int, to as int, channel as int),
{
    if from == 1 && (to == 2 || to == 4) {
        if channel == 0 || channel == 1 {
            list1(unit(0))
        } else {
            Vec::new()
        }
    } else if from == 1 && to == 6 {
        if channel == 2 {
            list1(unit(0))
        } else {
            Vec::new()
        }
    } else if from == 2 && (to == 4 || to == 6) {
        if channel == 0 || channel == 1 {
            list1(unit(channel))
        } else {
            Vec::new()
        }
    } else if from == 4 && to == 6 {
        if channel == 0 || channel == 1 {
            list1(unit(channel))
        } else if channel == 4 {
            list1(unit(2))
        } else if channel == 5 {
            list1(unit(3))
        } else {
            Vec::new()
        }
    } else if from == 2 && to == 1 {
        if channel == 0 {
            list2(half(0), half(1))
        } else {
            Vec::new()
        }
    } else if from == 4 && to == 1 {
        if channel == 0 {
            list4(quarter(0), quarter(1), quarter(2), quarter(3))
        } else {
            Vec::new()
        }
    } else if from == 6 && to == 1 {
        if channel == 0 {
            list5(root_half(0), root_half(1), unit(2), half(4), half(5))
        } else {
            Vec::new()
        }
    } else if from == 4 && to == 2 {
        if channel == 0 {
            list2(half(0), half(2))
        } else if channel == 1 {
            list2(half(1), half(3))
        } else {
            Vec::new()
        }
    } else if from == 6 && to == 2 {
        if channel == 0 {
            list3(unit(0), root_half(2), root_half(4))
        } else if channel == 1 {
            list3(unit(1), root_half(2), root_half(5))
        } else {
            Vec::new()
        }
    } else if from == 6 && to == 4 {
        if channel == 0 {
            list2(unit(0), root_half(2))
        } else if channel == 1 {
            list2(unit(1), root_half(2))
        } else if channel == 2 {
            list1(unit(4))
        } else if channel == 3 {
            list1(unit(5))
        } else {
            Vec::new()
        }
    } else {
        Vec::new()
    }
}

/// What channel `channel` of a buffer mixed from `from` to `to` channels is
/// made of.
pub fn mix_terms(from: usize, to: usize, interpretation: ChannelInterpretation, channel: usize) -> (r: Vec<
    Term,
>)
    ensures
        r@ == terms(from as int, to as int, interpretation, channel as int),
{
    if channel >= to {
        Vec::new()
    } else if interpretation == ChannelInterpretation::Speakers && has_layout(from) && has_layout(to) && from
        != to {
        speaker_mix(from, to, channel)
    } else if channel < from {
        list1(unit(channel))
    } else {
        Vec::new()
    }
}

fn copy_channel(samples: &Vec<u32>) -> (r: Vec<u32>)
    ensures
        r@ == samples@,
{
    let mut r: Vec<u32> = Vec::new();
    let mut i: usize = 0;
    while i < samples.len()
        invariant
            i <= samples.len(),
            r@ == samples@.take(i as int),
        decreases samples.len() - i,
    {
        r.push(samples[i]);
        i += 1;
    }
    r
}

fn silent_channel() -> (r: Vec<u32>)
    ensures
        r@ == silent_samples(),
{
    let mut r: Vec<u32> = Vec::new();
    let mut i: usize = 0;
    while i < RENDER_QUANTUM_SIZE
        invariant
            i <= RENDER_QUANTUM_SIZE,
            r@.len() == i,
            forall|j: int| 0 <= j < i ==> r@[j] == SILENCE,
        decreases RENDER_QUANTUM_SIZE - i,
    {
        r.push(SILENCE);
        i += 1;
    }
    r
}

/// Mixes `buffer` to `to` channels, where that needs no arithmetic on the
/// samples. Returns `None` when `to` is no valid channel count, and when
/// the mix adds channels up.
pub fn route(buffer: &AudioBuffer, to: usize, interpretation: ChannelInterpretation) -> (r: Option<AudioBuffer>)
    ensures
        r is Some <==> valid_channel_count(to as int) && !blends(buffer@.len() as int, to as int, interpretation),
        r matches Some(b) ==> b@ == routed(buffer@, to as int, interpretation) && b.rate() == buffer.rate(),
{
    let from = buffer.number_of_channels();
    if to < 1 || to > MAX_CHANNELS || is_blend(from, to, interpretation) {
        return None;
    }
    let mut channels: Vec<Vec<u32>> = Vec::new();
    let mut c: usize = 0;
    while c < to
        invariant
            c <= to,
            valid_channel_count(to as int),
            from == buffer@.len(),
            quantum_shaped(buffer@),
            !blends(from as int, to as int, interpretation),
            channels@.len() == c,
            forall|i: int| 0 <= i < c ==> (#[trigger] channels@[i])@ == routed(buffer@, to as int, interpretation)[i],
        decreases to - c,
    {
        let plan = mix_terms(from, to, interpretation, c);
        proof {
            lemma_terms(from as int, to as int, interpretation, c as int);
        }
        let channel = if plan.len() == 1 {
            match buffer.channel(plan[0].input) {
                Some(samples) => copy_channel(samples),
                None => vstd::pervasive::unreached(),
            }
        } else {
            silent_channel()
        };
        channels.push(channel);
        c += 1;
    }
    proof {
        assert forall|i: int| 0 <= i < to implies (#[trigger] routed(buffer@, to as int, interpretation)[i]).len()
            == RENDER_QUANTUM_SIZE by {
            lemma_terms(from as int, to as int, interpretation, i);
        }
    }
    AudioBuffer::from_channels(channels, buffer.sample_rate())
}

} // verus!
