//! The capture path: a hardware callback produces one buffer per quantum
//! into a bounded queue, and a source in the graph consumes one per quantum.
//!
//! Neither side ever waits. A full queue costs the newest buffer; an empty
//! queue is answered with silence, so that the graph never skips a quantum.

use vstd::prelude::*;
use crossbeam_channel::{Receiver, Sender};
use crate::buffer::{deinterleaved, quantum_shaped, silent_channels, valid_channel_count, AudioBuffer};
use crate::channel::{share_receiver, try_recv, try_send, Received, SendStatus};
use crate::error::ConfigurationError;
use crate::RENDER_QUANTUM_SIZE;

verus! {

/// What became of one captured block.
#[derive(Clone, Copy, Debug, PartialEq, Eq, Structural)]
pub enum CaptureOutcome {
    /// The block is queued for the graph.
    Delivered,
    /// The queue could not take the block: it is lost, and never retried.
    Dropped,
    /// The block does not hold one quantum per channel: nothing was queued.
    Rejected,
}

/// Whether the hardware stream is delivering blocks.
#[derive(Clone, Copy, Debug, PartialEq, Eq, Structural)]
pub enum StreamState {
    Running,
    Suspended,
}

/// What the backend must be told after a lifecycle request.
#[derive(Clone, Copy, Debug, PartialEq, Eq, Structural)]
pub enum BackendCommand {
    /// Pause the hardware stream.
    Pause,
    /// Restart the paused hardware stream.
    Play,
    /// Release the hardware stream and everything it holds.
    Release,
}

/// The outcome of a capture for each way the hand-off can end.
pub open spec fn outcome_of(status: SendStatus) -> CaptureOutcome {
    match status {
        SendStatus::Sent => CaptureOutcome::Delivered,
        SendStatus::Full => CaptureOutcome::Dropped,
        SendStatus::Disconnected => CaptureOutcome::Dropped,
    }
}

/// Whether a block of `len` interleaved samples is one quantum for each of
/// `n` channels.
pub open spec fn one_quantum(len: nat, n: nat) -> bool {
    len == n * RENDER_QUANTUM_SIZE
}

/// The control-side handle of a capture stream.
pub struct Microphone {
    receiver: Receiver<AudioBuffer>,
    number_of_channels: usize,
    sample_rate: u32,
    state: StreamState,
}

/// The consuming end of a capture stream: yields one buffer per quantum.
pub struct MicrophoneStream {
    receiver: Receiver<AudioBuffer>,
    number_of_channels: usize,
    sample_rate: u32,
}

/// The producing end of a capture stream, driven by the hardware callback.
pub struct MicrophoneRender {
    number_of_channels: usize,
    sample_rate: u32,
    sender: Sender<AudioBuffer>,
}

impl Microphone {
    #[verifier::type_invariant]
    spec fn well_formed(&self) -> bool {
        valid_channel_count(self.number_of_channels as int)
    }

    /// Number of channels of the stream.
    pub closed spec fn channels(&self) -> usize {
        self.number_of_channels
    }

    /// Frames per second of the stream.
    pub closed spec fn rate(&self) -> u32 {
        self.sample_rate
    }

    /// Whether the hardware stream is running or paused.
    pub closed spec fn state(&self) -> StreamState {
        self.state
    }

    /// The queue on which the captured buffers arrive.
    pub closed spec fn queue(&self) -> Receiver<AudioBuffer> {
        self.receiver
    }

    /// The handle of a running stream whose buffers arrive on `receiver`.
    /// Fails when the backend reports an invalid channel count.
    pub fn new(receiver: Receiver<AudioBuffer>, number_of_channels: usize, sample_rate: u32) -> (r:
        Result<Microphone, ConfigurationError>)
        ensures
            r is Ok <==> valid_channel_count(number_of_channels as int),
            r matches Ok(m) ==> m.channels() == number_of_channels && m.rate() == sample_rate
                && m.state() == StreamState::Running && m.queue() == receiver,
            r matches Err(e) ==> e == ConfigurationError::InvalidChannelCount,
    {
        if number_of_channels < 1 || number_of_channels > crate::MAX_CHANNELS {
            return Err(ConfigurationError::InvalidChannelCount);
        }
        Ok(Microphone { receiver, number_of_channels, sample_rate, state: StreamState::Running })
    }

    /// Pauses the stream. The backend has to act only if it was running.
    pub fn suspend(&mut self) -> (command: Option<BackendCommand>)
        ensures
            final(self).state() == StreamState::Suspended,
            final(self).queue() == old(self).queue(),
            final(self).channels() == old(self).channels(),
            final(self).rate() == old(self).rate(),
            command == if old(self).state() == StreamState::Running {
                Some(BackendCommand::Pause)
            } else {
                None::<BackendCommand>
            },
    {
        proof {
            use_type_invariant(&*self);
        }
        let was = self.state;
        self.state = StreamState::Suspended;
        if was == StreamState::Running {
            Some(BackendCommand::Pause)
        } else {
            None
        }
    }

    /// Restarts a paused stream. The backend has to act only if it was
    /// paused.
    pub fn resume(&mut self) -> (command: Option<BackendCommand>)
        ensures
            final(self).state() == StreamState::Running,
            final(self).queue() == old(self).queue(),
            final(self).channels() == old(self).channels(),
            final(self).rate() == old(self).rate(),
            command == if old(self).state() == StreamState::Suspended {
                Some(BackendCommand::Play)
            } else {
                None::<BackendCommand>
            },
    {
        proof {
            use_type_invariant(&*self);
        }
        let was = self.state;
        self.state = StreamState::Running;
        if was == StreamState::Suspended {
            Some(BackendCommand::Play)
        } else {
            None
        }
    }

    /// Ends the stream for good. The handle is consumed, so a stream is
    /// closed at most once.
    pub fn close(self) -> (command: BackendCommand)
        ensures
            command == BackendCommand::Release,
    {
        BackendCommand::Release
    }

    /// A consumer of the stream's buffers. Consumers read the queue of the
    /// microphone, all the same one: each buffer is offered once.
    pub fn stream(&self) -> (s: MicrophoneStream)
        ensures
            s.queue() == self.queue(),
            s.channels() == self.channels(),
            s.rate() == self.rate(),
    {
        proof {
            use_type_invariant(self);
        }
        MicrophoneStream {
            receiver: share_receiver(&self.receiver),
            number_of_channels: self.number_of_channels,
            sample_rate: self.sample_rate,
        }
    }
}

impl MicrophoneStream {
    #[verifier::type_invariant]
    spec fn well_formed(&self) -> bool {
        valid_channel_count(self.number_of_channels as int)
    }

    /// Number of channels of the silence that stands in for a late buffer.
    pub closed spec fn channels(&self) -> usize {
        self.number_of_channels
    }

    /// Frames per second of the silence that stands in for a late buffer.
    pub closed spec fn rate(&self) -> u32 {
        self.sample_rate
    }

    /// The queue that the consumer reads.
    pub closed spec fn queue(&self) -> Receiver<AudioBuffer> {
        self.receiver
    }

    /// What the consumer yields for each way a receive can end: the buffer
    /// that arrived; silence of the stream's shape when none was ready; the
    /// end of the stream once the producer is gone.
    pub fn deliver(&self, received: Received<AudioBuffer>) -> (r: Option<AudioBuffer>)
        ensures
            received matches Received::Message(b) ==> r == Some(b),
            received is Empty ==> r is Some && r->0@ == silent_channels(self.channels() as nat)
                && r->0.rate() == self.rate(),
            received is Disconnected ==> r is None,
            r matches Some(b) ==> quantum_shaped(b@),
    {
        proof {
            use_type_invariant(self);
        }
        match received {
            Received::Message(buffer) => {
                // Asking any buffer for its channel count recalls its shape.
                buffer.number_of_channels();
                Some(buffer)
            },
            Received::Empty => AudioBuffer::silent(self.number_of_channels, self.sample_rate),
            Received::Disconnected => None,
        }
    }

    /// The buffer for this quantum, or `None` once the stream has ended.
    /// Never waits: see [`MicrophoneStream::deliver`] for what is yielded
    /// in each case.
    pub fn next(&mut self) -> (r: Option<AudioBuffer>)
        ensures
            final(self).queue() == old(self).queue(),
            final(self).channels() == old(self).channels(),
            final(self).rate() == old(self).rate(),
            r matches Some(b) ==> quantum_shaped(b@),
    {
        let received = try_recv(&self.receiver);
        self.deliver(received)
    }
}

impl MicrophoneRender {
    /// Number of channels interleaved in each captured block.
    pub closed spec fn channels(&self) -> usize {
        self.number_of_channels
    }

    /// Frames per second of the captured blocks.
    pub closed spec fn rate(&self) -> u32 {
        self.sample_rate
    }

    /// The queue on which the captured buffers go to the graph.
    pub closed spec fn queue(&self) -> Sender<AudioBuffer> {
        self.sender
    }

    /// The producing end for blocks of `number_of_channels` interleaved
    /// channels, queued on `sender`.
    pub fn new(number_of_channels: usize, sample_rate: u32, sender: Sender<AudioBuffer>) -> (r:
        MicrophoneRender)
        ensures
            r.channels() == number_of_channels,
            r.rate() == sample_rate,
            r.queue() == sender,
    {
        MicrophoneRender { number_of_channels, sample_rate, sender }
    }

    /// The buffer made from one captured block, if the block is one quantum
    /// for each channel of the stream.
    pub fn frame(&self, data: &[u32]) -> (r: Option<AudioBuffer>)
        ensures
            r is Some <==> valid_channel_count(self.channels() as int) && one_quantum(
                data@.len(),
                self.channels() as nat,
            ),
            r matches Some(b) ==> b@ == deinterleaved(data@, self.channels() as nat) && b.rate()
                == self.rate(),
    {
        AudioBuffer::from_interleaved(data, self.number_of_channels, self.sample_rate)
    }

    /// The outcome of a capture, given how the hand-off to the queue ended.
    pub fn settle(status: SendStatus) -> (r: CaptureOutcome)
        ensures
            r == outcome_of(status),
    {
        match status {
            SendStatus::Sent => CaptureOutcome::Delivered,
            SendStatus::Full => CaptureOutcome::Dropped,
            SendStatus::Disconnected => CaptureOutcome::Dropped,
        }
    }

    /// Hands one captured block to the graph without waiting.
    ///
    /// A block that is not one quantum per channel is rejected. Any other
    /// block is offered to the queue once, as the buffer that
    /// [`MicrophoneRender::frame`] makes of it, and is lost if the queue
    /// does not take it.
    pub fn render(&self, data: &[u32]) -> (r: CaptureOutcome)
        ensures
            r == CaptureOutcome::Rejected <==> !(valid_channel_count(self.channels() as int)
                && one_quantum(data@.len(), self.channels() as nat)),
    {
        match self.frame(data) {
            None => CaptureOutcome::Rejected,
            Some(buffer) => Self::settle(try_send(&self.sender, buffer)),
        }
    }
}

} // verus!
