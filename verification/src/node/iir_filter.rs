//! The second-order filter node, as far as the engine is concerned: its
//! filter type, which the control thread sets and the render thread reads,
//! and the side channel on which the control thread asks the render thread
//! for the coefficients in use.
//!
//! The side channel never holds up rendering. The render thread looks for
//! a request once per quantum and answers it if the requester can take the
//! answer at once; the control thread polls for the answer a bounded
//! number of times.

use vstd::prelude::*;
use crossbeam_channel::{Receiver, Sender};
use std::sync::atomic::AtomicU32;
use std::sync::Arc;
use crate::channel::{bounded, try_recv, try_send, Received, SendStatus};
use crate::error::ConfigurationError;
use crate::mixing::{ChannelConfig, ChannelCountMode, ChannelInterpretation};
use crate::param::{clamped, place_of, AutomationRate, ParamRange};
use crate::render::topology::{NodeShape, ParamId};

verus! {

/// The response of the filter.
#[derive(Clone, Copy, Debug, PartialEq, Eq, Structural)]
pub enum IirFilterType {
    Lowpass,
    Highpass,
    Bandpass,
    Notch,
    Allpass,
    Peaking,
    Lowshelf,
    Highshelf,
}

/// The number that stands for a filter type where the two threads share
/// it.
pub open spec fn code_of(t: IirFilterType) -> u32 {
    match t {
        IirFilterType::Lowpass => 0,
        IirFilterType::Highpass => 1,
        IirFilterType::Bandpass => 2,
        IirFilterType::Notch => 3,
        IirFilterType::Allpass => 4,
        IirFilterType::Peaking => 5,
        IirFilterType::Lowshelf => 6,
        IirFilterType::Highshelf => 7,
    }
}

/// The filter type that a number stands for, if any.
pub open spec fn type_of(code: u32) -> Option<IirFilterType> {
    if code == 0 {
        Some(IirFilterType::Lowpass)
    } else if code == 1 {
        Some(IirFilterType::Highpass)
    } else if code == 2 {
        Some(IirFilterType::Bandpass)
    } else if code == 3 {
        Some(IirFilterType::Notch)
    } else if code == 4 {
        Some(IirFilterType::Allpass)
    } else if code == 5 {
        Some(IirFilterType::Peaking)
    } else if code == 6 {
        Some(IirFilterType::Lowshelf)
    } else if code == 7 {
        Some(IirFilterType::Highshelf)
    } else {
        None
    }
}

/// The filter type that is read from a number: the type it stands for, or
/// lowpass where it stands for none.
pub open spec fn decoded(code: u32) -> IirFilterType {
    match type_of(code) {
        Some(t) => t,
        None => IirFilterType::Lowpass,
    }
}

/// Every filter type is read back from its number, and no two types share
/// a number.
pub proof fn lemma_code_round_trip(t: IirFilterType, u: IirFilterType)
    ensures
        type_of(code_of(t)) == Some(t),
        decoded(code_of(t)) == t,
        code_of(t) == code_of(u) ==> t == u,
        code_of(t) < 8,
{
}

impl IirFilterType {
    /// The number that stands for this filter type.
    pub fn code(self) -> (r: u32)
        ensures
            r == code_of(self),
    {
        match self {
            IirFilterType::Lowpass => 0,
            IirFilterType::Highpass => 1,
            IirFilterType::Bandpass => 2,
            IirFilterType::Notch => 3,
            IirFilterType::Allpass => 4,
            IirFilterType::Peaking => 5,
            IirFilterType::Lowshelf => 6,
            IirFilterType::Highshelf => 7,
        }
    }

    /// The filter type that `code` stands for, if any.
    pub fn from_code(code: u32) -> (r: Option<IirFilterType>)
        ensures
            r == type_of(code),
    {
        if code == 0 {
            Some(IirFilterType::Lowpass)
        } else if code == 1 {
            Some(IirFilterType::Highpass)
        } else if code == 2 {
            Some(IirFilterType::Bandpass)
        } else if code == 3 {
            Some(IirFilterType::Notch)
        } else if code == 4 {
            Some(IirFilterType::Allpass)
        } else if code == 5 {
            Some(IirFilterType::Peaking)
        } else if code == 6 {
            Some(IirFilterType::Lowshelf)
        } else if code == 7 {
            Some(IirFilterType::Highshelf)
        } else {
            None
        }
    }

    /// The filter type that is read from `code`.
    pub fn decode(code: u32) -> (r: IirFilterType)
        ensures
            r == decoded(code),
    {
        match IirFilterType::from_code(code) {
            Some(t) => t,
            None => IirFilterType::Lowpass,
        }
    }
}

/// The six coefficients of the filter, each as the bit pattern of its
/// single-precision value: numerator `b0`, `b1`, `b2` and denominator
/// `a0`, `a1`, `a2`.
#[derive(Clone, Copy, Debug, PartialEq, Eq, Structural)]
pub struct Coefficients {
    pub b0: u32,
    pub b1: u32,
    pub b2: u32,
    pub a0: u32,
    pub a1: u32,
    pub a2: u32,
}

/// A request for the coefficients in use, with the queue for the answer.
pub struct CoeffsReq {
    reply: Sender<Coefficients>,
}

/// Why a request for the coefficients brought none.
#[derive(Clone, Copy, Debug, PartialEq, Eq, Structural)]
pub enum QueryError {
    /// An earlier request is still waiting to be taken.
    Busy,
    /// The render side of the node is gone.
    Disconnected,
    /// No answer came within the polls allowed.
    Timeout,
}

/// What one poll for the answer brought.
#[derive(Clone, Copy, Debug, PartialEq, Eq, Structural)]
pub enum Poll {
    /// The answer.
    Ready(Coefficients),
    /// No answer yet.
    Pending,
    /// There will be no answer.
    Failed(QueryError),
}

/// What became of a look for a request on the render side.
#[derive(Clone, Copy, Debug, PartialEq, Eq, Structural)]
pub enum Answer {
    /// No request was waiting.
    Idle,
    /// A request was answered.
    Replied,
    /// A request was waiting, but its requester could not take the answer.
    Unanswered,
}

/// What one poll brings for each way a receive can end.
pub open spec fn polled(received: Received<Coefficients>) -> Poll {
    match received {
        Received::Message(c) => Poll::Ready(c),
        Received::Empty => Poll::Pending,
        Received::Disconnected => Poll::Failed(QueryError::Disconnected),
    }
}

/// How a wait goes on after one look, when `left` looks were allowed
/// before it; `None` stands for another look.
pub open spec fn stepped(poll: Poll, left: usize) -> Option<Result<Coefficients, QueryError>> {
    match poll {
        Poll::Ready(c) => Some(Ok(c)),
        Poll::Failed(e) => Some(Err(e)),
        Poll::Pending => if left <= 1 {
            Some(Err(QueryError::Timeout))
        } else {
            None
        },
    }
}

/// What became of a request for each way the hand-off of the answer can
/// end.
pub open spec fn answered(status: SendStatus) -> Answer {
    match status {
        SendStatus::Sent => Answer::Replied,
        SendStatus::Full => Answer::Unanswered,
        SendStatus::Disconnected => Answer::Unanswered,
    }
}

/// Calls `Clone::clone` of `std::sync::Arc`, which hands out another
/// pointer to the same allocation: the result stands for the shared value
/// that `cell` stands for.
#[verifier::external_body]
fn share(cell: &Arc<AtomicU32>) -> (r: Arc<AtomicU32>)
    ensures
        r == *cell,
{
    Arc::clone(cell)
}

/// Reads the shared number. What it is depends on the other thread.
fn load(cell: &Arc<AtomicU32>) -> u32 {
    cell.load(std::sync::atomic::Ordering::SeqCst)
}

/// Writes the shared number.
fn store(cell: &Arc<AtomicU32>, value: u32) {
    cell.store(value, std::sync::atomic::Ordering::SeqCst)
}

/// The four parameters of the filter.
#[derive(Clone, Copy, Debug, PartialEq, Eq, Structural)]
pub struct IirFilterParams {
    pub q: ParamId,
    pub detune: ParamId,
    pub frequency: ParamId,
    pub gain: ParamId,
}

/// The default Q: the bit pattern of 1.
pub const DEFAULT_Q: u32 = 0x3F80_0000;

/// The default detune: the bit pattern of 0.
pub const DEFAULT_DETUNE: u32 = 0;

/// The default frequency: the bit pattern of 350.
pub const DEFAULT_FREQUENCY: u32 = 0x43AF_0000;

/// The default gain: the bit pattern of 0.
pub const DEFAULT_GAIN: u32 = 0;

/// The smallest finite single-precision value, as a bit pattern.
pub const LOWEST: u32 = 0xFF7F_FFFF;

/// The largest finite single-precision value, as a bit pattern.
pub const HIGHEST: u32 = 0x7F7F_FFFF;

/// The smallest detune: the bit pattern of -153600.
pub const LOWEST_DETUNE: u32 = 0xC816_0000;

/// The largest detune: the bit pattern of 153600.
pub const HIGHEST_DETUNE: u32 = 0x4816_0000;

/// The smallest frequency: the bit pattern of 0.
pub const LOWEST_FREQUENCY: u32 = 0;

/// Options for constructing the filter. Values are bit patterns of
/// singles, coefficients of doubles.
pub struct IirFilterOptions {
    /// Channel configuration of the node.
    pub channel_config: ChannelConfig,
    /// Feedforward coefficients.
    pub feedforward: Vec<u64>,
    /// Feedback coefficients.
    pub feedback: Vec<u64>,
    /// Initial Q; the default when absent.
    pub q: Option<u32>,
    /// Initial detune; the default when absent.
    pub detune: Option<u32>,
    /// Initial frequency; the default when absent.
    pub frequency: Option<u32>,
    /// Initial gain; the default when absent.
    pub gain: Option<u32>,
    /// Initial filter type; lowpass when absent.
    pub type_: Option<IirFilterType>,
}

/// The ranges of the four parameters of the filter.
#[derive(Clone, Copy, Debug)]
pub struct IirFilterRanges {
    pub q: ParamRange,
    pub detune: ParamRange,
    pub frequency: ParamRange,
    pub gain: ParamRange,
}

/// The values that the filter starts with, as bit patterns.
#[derive(Clone, Copy, Debug, PartialEq, Eq, Structural)]
pub struct IirFilterInit {
    pub q: u32,
    pub detune: u32,
    pub frequency: u32,
    pub gain: u32,
    pub type_: IirFilterType,
}

/// The value that a parameter starts with: the one asked for, or the
/// default where none was asked for, held to the range of the parameter.
pub open spec fn starting(asked: Option<u32>, default: u32, min: u32, max: u32) -> u32 {
    clamped(
        match asked {
            Some(v) => v,
            None => default,
        },
        min,
        max,
    )
}

/// The values that a filter made with `options` starts with, where
/// `nyquist` is the largest frequency.
pub open spec fn starting_values(options: Option<IirFilterOptions>, nyquist: u32) -> IirFilterInit {
    match options {
        Some(o) => IirFilterInit {
            q: starting(o.q, DEFAULT_Q, LOWEST, HIGHEST),
            detune: starting(o.detune, DEFAULT_DETUNE, LOWEST_DETUNE, HIGHEST_DETUNE),
            frequency: starting(o.frequency, DEFAULT_FREQUENCY, LOWEST_FREQUENCY, nyquist),
            gain: starting(o.gain, DEFAULT_GAIN, LOWEST, HIGHEST),
            type_: match o.type_ {
                Some(t) => t,
                None => IirFilterType::Lowpass,
            },
        },
        None => IirFilterInit {
            q: DEFAULT_Q,
            detune: DEFAULT_DETUNE,
            frequency: DEFAULT_FREQUENCY,
            gain: DEFAULT_GAIN,
            type_: IirFilterType::Lowpass,
        },
    }
}

/// Whether the default frequency lies within the range of frequencies up
/// to `nyquist`.
pub open spec fn room_for_default(nyquist: u32) -> bool {
    place_of(LOWEST_FREQUENCY) <= place_of(DEFAULT_FREQUENCY) <= place_of(nyquist)
}

/// The control side of the filter node.
pub struct IirFilterNode {
    sample_rate: u32,
    channel_config: ChannelConfig,
    params: IirFilterParams,
    type_: Arc<AtomicU32>,
    sender: Sender<CoeffsReq>,
}

/// The render side of the filter node.
pub struct IirFilterRenderer {
    sample_rate: u32,
    params: IirFilterParams,
    ranges: IirFilterRanges,
    rate: AutomationRate,
    init: IirFilterInit,
    type_: Arc<AtomicU32>,
    receiver: Receiver<CoeffsReq>,
}

/// The value asked for, or the default, held to the range.
fn pick(asked: Option<u32>, default: u32, range: &ParamRange) -> (r: u32)
    ensures
        r == starting(asked, default, range.smallest(), range.largest()),
{
    match asked {
        Some(v) => range.clamp(v),
        None => range.clamp(default),
    }
}

impl IirFilterNode {
    /// The parameters of the node.
    pub closed spec fn parameters(&self) -> IirFilterParams {
        self.params
    }

    /// The channel configuration of the node.
    pub closed spec fn config(&self) -> ChannelConfig {
        self.channel_config
    }

    /// Frames per second at which the node runs.
    pub closed spec fn rate(&self) -> u32 {
        self.sample_rate
    }

    /// The shared place in which the filter type stands.
    pub closed spec fn shared_type(&self) -> Arc<AtomicU32> {
        self.type_
    }

    /// The two sides of a filter node that runs at `sample_rate`.
    ///
    /// `nyquist` is the bit pattern of half the sample rate: the largest
    /// frequency. Q and gain range over all finite values, detune between
    /// its two limits, the frequency from zero to `nyquist`. Each
    /// parameter starts with the value that `options` asks for, held to
    /// its range, or with its default, and is evaluated once per frame.
    /// Without options the node has the default channel configuration.
    ///
    /// Fails when the default frequency is larger than `nyquist`.
    pub fn new(sample_rate: u32, nyquist: u32, params: IirFilterParams, options: Option<IirFilterOptions>) -> (r:
        Result<(IirFilterNode, IirFilterRenderer), ConfigurationError>)
        ensures
            r is Ok <==> room_for_default(nyquist),
            r matches Err(e) ==> e == ConfigurationError::InvalidParamRange,
            r matches Ok(pair) ==> {
                &&& pair.0.parameters() == params
                &&& pair.0.rate() == sample_rate
                &&& options matches Some(o) ==> pair.0.config() == o.channel_config
                &&& options is None ==> pair.0.config().channels() == 2 && pair.0.config().count_mode()
                    == ChannelCountMode::Max && pair.0.config().layout() == ChannelInterpretation::Speakers
                &&& pair.1.parameters() == params
                &&& pair.1.rate() == sample_rate
                &&& pair.1.shared_type() == pair.0.shared_type()
                &&& pair.1.starting() == starting_values(options, nyquist)
                &&& pair.1.automation() == AutomationRate::A
                &&& pair.1.limits().q.smallest() == LOWEST && pair.1.limits().q.largest() == HIGHEST
                &&& pair.1.limits().q.initial() == DEFAULT_Q
                &&& pair.1.limits().detune.smallest() == LOWEST_DETUNE && pair.1.limits().detune.largest()
                    == HIGHEST_DETUNE
                &&& pair.1.limits().detune.initial() == DEFAULT_DETUNE
                &&& pair.1.limits().frequency.smallest() == LOWEST_FREQUENCY
                    && pair.1.limits().frequency.largest() == nyquist
                &&& pair.1.limits().frequency.initial() == DEFAULT_FREQUENCY
                &&& pair.1.limits().gain.smallest() == LOWEST && pair.1.limits().gain.largest() == HIGHEST
                &&& pair.1.limits().gain.initial() == DEFAULT_GAIN
            },
    {
        let q = match ParamRange::new(LOWEST, DEFAULT_Q, HIGHEST) {
            Ok(range) => range,
            Err(_) => vstd::pervasive::unreached(),
        };
        let detune = match ParamRange::new(LOWEST_DETUNE, DEFAULT_DETUNE, HIGHEST_DETUNE) {
            Ok(range) => range,
            Err(_) => vstd::pervasive::unreached(),
        };
        let gain = match ParamRange::new(LOWEST, DEFAULT_GAIN, HIGHEST) {
            Ok(range) => range,
            Err(_) => vstd::pervasive::unreached(),
        };
        let frequency = match ParamRange::new(LOWEST_FREQUENCY, DEFAULT_FREQUENCY, nyquist) {
            Ok(range) => range,
            Err(error) => {
                return Err(error);
            },
        };
        let ranges = IirFilterRanges { q, detune, frequency, gain };
        let (channel_config, init) = match options {
            Some(o) => (
                o.channel_config,
                IirFilterInit {
                    q: pick(o.q, DEFAULT_Q, &q),
                    detune: pick(o.detune, DEFAULT_DETUNE, &detune),
                    frequency: pick(o.frequency, DEFAULT_FREQUENCY, &frequency),
                    gain: pick(o.gain, DEFAULT_GAIN, &gain),
                    type_: match o.type_ {
                        Some(t) => t,
                        None => IirFilterType::Lowpass,
                    },
                },
            ),
            None => (
                ChannelConfig::default(),
                IirFilterInit {
                    q: DEFAULT_Q,
                    detune: DEFAULT_DETUNE,
                    frequency: DEFAULT_FREQUENCY,
                    gain: DEFAULT_GAIN,
                    type_: IirFilterType::Lowpass,
                },
            ),
        };
        let cell = Arc::new(AtomicU32::new(init.type_.code()));
        let (sender, receiver) = bounded::<CoeffsReq>(1);
        let node = IirFilterNode { sample_rate, channel_config, params, type_: share(&cell), sender };
        let render = IirFilterRenderer {
            sample_rate,
            params,
            ranges,
            rate: AutomationRate::A,
            init,
            type_: cell,
            receiver,
        };
        Ok((node, render))
    }

    /// The node has one input.
    pub fn number_of_inputs(&self) -> (r: u32)
        ensures
            r == 1,
    {
        1
    }

    /// The node has one output.
    pub fn number_of_outputs(&self) -> (r: u32)
        ensures
            r == 1,
    {
        1
    }

    /// The shape of the node in the graph: one input and one output with
    /// the channel configuration of the node, and no terminal destination.
    pub fn shape(&self) -> (r: NodeShape)
        ensures
            r.inputs == 1,
            r.outputs == 1,
            r.config == self.config(),
            !r.sink,
    {
        NodeShape { inputs: 1, outputs: 1, config: self.channel_config, sink: false }
    }

    /// The channel configuration of the node.
    pub fn channel_config_raw(&self) -> (r: &ChannelConfig)
        ensures
            *r == self.config(),
    {
        &self.channel_config
    }

    /// The gain parameter.
    pub fn gain(&self) -> (r: ParamId)
        ensures
            r == self.parameters().gain,
    {
        self.params.gain
    }

    /// The frequency parameter.
    pub fn frequency(&self) -> (r: ParamId)
        ensures
            r == self.parameters().frequency,
    {
        self.params.frequency
    }

    /// The detune parameter.
    pub fn detune(&self) -> (r: ParamId)
        ensures
            r == self.parameters().detune,
    {
        self.params.detune
    }

    /// The Q parameter.
    pub fn q(&self) -> (r: ParamId)
        ensures
            r == self.parameters().q,
    {
        self.params.q
    }

    /// The filter type as the node has it now. It is what was last set, on
    /// any handle of the node; see [`IirFilterType::decode`] for how it is
    /// read.
    pub fn type_(&self) -> IirFilterType {
        IirFilterType::decode(load(&self.type_))
    }

    /// Sets the filter type. The render thread reads it at the start of
    /// the next quantum.
    pub fn set_type(&mut self, type_: IirFilterType)
        ensures
            final(self).parameters() == old(self).parameters(),
            final(self).config() == old(self).config(),
            final(self).rate() == old(self).rate(),
            final(self).shared_type() == old(self).shared_type(),
    {
        store(&self.type_, type_.code());
    }

    /// What one poll for the answer brings, for each way a receive can
    /// end.
    pub fn poll(received: Received<Coefficients>) -> (r: Poll)
        ensures
            r == polled(received),
    {
        match received {
            Received::Message(c) => Poll::Ready(c),
            Received::Empty => Poll::Pending,
            Received::Disconnected => Poll::Failed(QueryError::Disconnected),
        }
    }

    /// Why a request that could not be handed over brought nothing.
    pub fn refused(status: SendStatus) -> (r: Option<QueryError>)
        ensures
            r == match status {
                SendStatus::Sent => None,
                SendStatus::Full => Some(QueryError::Busy),
                SendStatus::Disconnected => Some(QueryError::Disconnected),
            },
    {
        match status {
            SendStatus::Sent => None,
            SendStatus::Full => Some(QueryError::Busy),
            SendStatus::Disconnected => Some(QueryError::Disconnected),
        }
    }

    /// Asks the render thread for the coefficients in use. Never waits:
    /// the request is handed over at once or not at all.
    ///
    /// Fails with `Busy` while an earlier request waits to be taken, and
    /// with `Disconnected` once the render side is gone; which of the
    /// three it is depends on the render thread.
    pub fn request(&self) -> (r: Result<PendingQuery, QueryError>)
        ensures
            r matches Err(e) ==> e == QueryError::Busy || e == QueryError::Disconnected,
    {
        let (reply, answer) = bounded::<Coefficients>(1);
        match Self::refused(try_send(&self.sender, CoeffsReq { reply })) {
            Some(error) => Err(error),
            None => Ok(PendingQuery { answer }),
        }
    }

    /// Asks the render thread for the coefficients in use, and polls for
    /// the answer up to `attempts` times. Never waits on the render
    /// thread.
    ///
    /// The outcome depends on the render thread. Whatever it does, the
    /// call ends after `attempts` polls at most; without a poll there is
    /// no answer.
    pub fn coefficients(&self, attempts: usize) -> (r: Result<Coefficients, QueryError>)
        ensures
            attempts == 0 ==> r is Err,
    {
        match self.request() {
            Ok(pending) => pending.wait(attempts),
            Err(error) => Err(error),
        }
    }
}

/// A request for the coefficients that was handed over and waits for its
/// answer. Dropping it withdraws the request.
pub struct PendingQuery {
    answer: Receiver<Coefficients>,
}

impl PendingQuery {
    /// Looks once for the answer, without waiting.
    pub fn poll(&self) -> (r: Poll)
        ensures
            r matches Poll::Failed(e) ==> e == QueryError::Disconnected,
    {
        IirFilterNode::poll(try_recv(&self.answer))
    }

    /// Looks for the answer up to `attempts` times, without waiting in
    /// between. Fails with `Timeout` when every look found nothing, and
    /// with `Disconnected` when there will be no answer.
    pub fn wait(&self, attempts: usize) -> (r: Result<Coefficients, QueryError>)
        ensures
            attempts == 0 ==> r == Err::<Coefficients, QueryError>(QueryError::Timeout),
            r matches Err(e) ==> e == QueryError::Timeout || e == QueryError::Disconnected,
    {
        let mut left = attempts;
        while left > 0
            invariant
                left <= attempts,
            decreases left,
        {
            match Self::step(self.poll(), left) {
                Some(outcome) => {
                    return outcome;
                },
                None => {
                    left -= 1;
                },
            }
        }
        Err(QueryError::Timeout)
    }

    /// What a wait does after one look, when `left` looks were allowed
    /// before it: an answer ends the wait with the answer, a failure ends
    /// it with the failure, and a look that found nothing ends it with
    /// `Timeout` if it was the last one allowed. `None` means: look again.
    pub fn step(poll: Poll, left: usize) -> (r: Option<Result<Coefficients, QueryError>>)
        ensures
            r == stepped(poll, left),
    {
        match poll {
            Poll::Ready(c) => Some(Ok(c)),
            Poll::Failed(error) => Some(Err(error)),
            Poll::Pending => if left <= 1 {
                Some(Err(QueryError::Timeout))
            } else {
                None
            },
        }
    }
}

impl IirFilterRenderer {
    /// The parameters of the node.
    pub closed spec fn parameters(&self) -> IirFilterParams {
        self.params
    }

    /// Frames per second at which the node runs.
    pub closed spec fn rate(&self) -> u32 {
        self.sample_rate
    }

    /// The shared place in which the filter type stands: the one that the
    /// control side writes.
    pub closed spec fn shared_type(&self) -> Arc<AtomicU32> {
        self.type_
    }

    /// The ranges of the parameters.
    pub closed spec fn limits(&self) -> IirFilterRanges {
        self.ranges
    }

    /// The values that the filter starts with.
    pub closed spec fn starting(&self) -> IirFilterInit {
        self.init
    }

    /// How often the four parameters are evaluated.
    pub closed spec fn automation(&self) -> AutomationRate {
        self.rate
    }

    /// How often the four parameters are evaluated: once per frame.
    pub fn automation_rate(&self) -> (r: AutomationRate)
        ensures
            r == self.automation(),
    {
        self.rate
    }

    /// The ranges of the parameters.
    pub fn ranges(&self) -> (r: IirFilterRanges)
        ensures
            r == self.limits(),
    {
        self.ranges
    }

    /// The values that the filter starts with.
    pub fn init(&self) -> (r: IirFilterInit)
        ensures
            r == self.starting(),
    {
        self.init
    }

    /// The parameters whose values the filter is computed from.
    pub fn params(&self) -> (r: IirFilterParams)
        ensures
            r == self.parameters(),
    {
        self.params
    }

    /// Frames per second at which the node runs.
    pub fn sample_rate(&self) -> (r: u32)
        ensures
            r == self.rate(),
    {
        self.sample_rate
    }

    /// The filter type to use in this quantum: what the control thread
    /// last set.
    pub fn filter_type(&self) -> IirFilterType {
        IirFilterType::decode(load(&self.type_))
    }

    /// The filter has no tail: it asks for no processing beyond its
    /// input.
    pub fn tail_time(&self) -> (r: bool)
        ensures
            !r,
    {
        false
    }

    /// What became of a request, for each way the hand-off of the answer
    /// can end.
    pub fn settle(status: SendStatus) -> (r: Answer)
        ensures
            r == answered(status),
    {
        match status {
            SendStatus::Sent => Answer::Replied,
            SendStatus::Full => Answer::Unanswered,
            SendStatus::Disconnected => Answer::Unanswered,
        }
    }

    /// Looks once for a request and answers it with `coefficients` if one
    /// is waiting. Never waits: without a request nothing happens, and an
    /// answer that the requester cannot take at once is dropped. See
    /// [`IirFilterRenderer::respond`] for what becomes of each look.
    pub fn answer(&self, coefficients: Coefficients) -> (r: Answer) {
        Self::respond(try_recv(&self.receiver), coefficients)
    }

    /// What becomes of a look for a request, for each way the look can
    /// end: without a request nothing happens; a request is answered with
    /// `coefficients`, offered to its requester once and without waiting.
    pub fn respond(received: Received<CoeffsReq>, coefficients: Coefficients) -> (r: Answer)
        ensures
            received is Empty || received is Disconnected ==> r == Answer::Idle,
            received is Message ==> r == Answer::Replied || r == Answer::Unanswered,
    {
        match received {
            Received::Message(request) => Self::settle(try_send(&request.reply, coefficients)),
            Received::Empty => Answer::Idle,
            Received::Disconnected => Answer::Idle,
        }
    }
}

} // verus!
