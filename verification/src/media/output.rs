//! The playback path: the render loop produces one buffer per quantum
//! into a bounded queue, and the hardware callback consumes one per
//! quantum.
//!
//! Neither side ever waits. A full queue costs the newest buffer; an empty
//! queue is answered with silence.

use vstd::prelude::*;
use crossbeam_channel::{Receiver, Sender};
use crate::buffer::{deinterleaved, quantum_shaped, silent_channels, valid_channel_count, AudioBuffer};
use crate::channel::{try_recv, try_send, Received, SendStatus};
use crate::error::ConfigurationError;
use crate::{MAX_CHANNELS, RENDER_QUANTUM_SIZE};

verus! {

/// What became of one rendered buffer.
#[derive(Clone, Copy, Debug, PartialEq, Eq, Structural)]
pub enum PlaybackOutcome {
    /// The buffer is queued for the hardware.
    Queued,
    /// The queue could not take the buffer: it is lost, and never retried.
    Dropped,
}

/// The outcome of a playback for each way the hand-off can end.
pub open spec fn played(status: SendStatus) -> PlaybackOutcome {
    match status {
        SendStatus::Sent => PlaybackOutcome::Queued,
        SendStatus::Full => PlaybackOutcome::Dropped,
        SendStatus::Disconnected => PlaybackOutcome::Dropped,
    }
}

/// The samples of `channels` frame by frame: the sample of channel `c` in
/// frame `f` stands at position `f * n + c`, where `n` is the number of
/// channels.
pub open spec fn interleaved(channels: Seq<Seq<u32>>) -> Seq<u32> {
    Seq::new(
        channels.len() * RENDER_QUANTUM_SIZE as nat,
        |i: int| channels[i % channels.len() as int][i / channels.len() as int],
    )
}

/// Splitting an interleaved block into its channels and interleaving the
/// channels again gives the block back, and the other way round.
pub proof fn lemma_interleave_round_trip(channels: Seq<Seq<u32>>, data: Seq<u32>, n: nat)
    requires
        valid_channel_count(n as int),
    ensures
        quantum_shaped(channels) ==> deinterleaved(interleaved(channels), channels.len()) == channels,
        data.len() == n * RENDER_QUANTUM_SIZE ==> interleaved(deinterleaved(data, n)) == data,
{
    if quantum_shaped(channels) {
        let m = channels.len() as int;
        let back = deinterleaved(interleaved(channels), channels.len());
        assert forall|c: int| 0 <= c < m implies #[trigger] back[c] == channels[c] by {
            assert forall|f: int| 0 <= f < RENDER_QUANTUM_SIZE implies back[c][f] == channels[c][f] by {
                lemma_position(m, c, f);
                assert((f + 1) * m <= m * RENDER_QUANTUM_SIZE) by (nonlinear_arith)
                    requires
                        0 <= f < RENDER_QUANTUM_SIZE,
                        0 < m,
                ;
            }
        }
    }
    if data.len() == n * RENDER_QUANTUM_SIZE {
        let again = interleaved(deinterleaved(data, n));
        assert forall|i: int| 0 <= i < data.len() implies again[i] == data[i] by {
            let c = i % (n as int);
            let f = i / (n as int);
            vstd::arithmetic::div_mod::lemma_fundamental_div_mod(i, n as int);
            assert(f * n + c == i) by (nonlinear_arith)
                requires
                    i == (n as int) * f + c,
            ;
            assert(0 <= f < RENDER_QUANTUM_SIZE) by (nonlinear_arith)
                requires
                    0 <= i < n * RENDER_QUANTUM_SIZE,
                    i == (n as int) * f + c,
                    0 <= c < n,
            ;
        }
    }
}

/// Channel `c` of frame `f` stands at position `f * n + c`, from which
/// both are read back.
proof fn lemma_position(n: int, c: int, f: int)
    requires
        0 <= c < n,
        0 <= f,
    ensures
        (f * n + c) % n == c,
        (f * n + c) / n == f,
        0 <= f * n + c < (f + 1) * n,
{
    vstd::arithmetic::div_mod::lemma_fundamental_div_mod_converse(f * n + c, n, f, c);
    assert(f * n + c < (f + 1) * n) by (nonlinear_arith)
        requires
            0 <= c < n,
    ;
    assert(0 <= f * n + c) by (nonlinear_arith)
        requires
            0 <= c < n,
            0 <= f,
    ;
}

/// The producing end of a playback stream, driven by the render loop.
pub struct OutputRender {
    sender: Sender<AudioBuffer>,
}

/// The consuming end of a playback stream, driven by the hardware
/// callback.
pub struct OutputStream {
    receiver: Receiver<AudioBuffer>,
    number_of_channels: usize,
    sample_rate: u32,
}

impl OutputRender {
    /// The producing end that queues on `sender`.
    pub fn new(sender: Sender<AudioBuffer>) -> (r: OutputRender)
        ensures
            r.queue() == sender,
    {
        OutputRender { sender }
    }

    /// The outcome of a playback, given how the hand-off to the queue
    /// ended.
    pub fn settle(status: SendStatus) -> (r: PlaybackOutcome)
        ensures
            r == played(status),
    {
        match status {
            SendStatus::Sent => PlaybackOutcome::Queued,
            SendStatus::Full => PlaybackOutcome::Dropped,
            SendStatus::Disconnected => PlaybackOutcome::Dropped,
        }
    }

    /// Hands one rendered buffer to the hardware without waiting. The
    /// buffer is offered to the queue once and is lost if the queue does
    /// not take it.
    pub fn play(&self, buffer: AudioBuffer) -> PlaybackOutcome {
        Self::settle(try_send(&self.sender, buffer))
    }

    /// The queue on which the buffers go to the hardware: the one that
    /// the producing end was made with.
    pub closed spec fn queue(&self) -> Sender<AudioBuffer> {
        self.sender
    }
}

impl OutputStream {
    #[verifier::type_invariant]
    spec fn well_formed(&self) -> bool {
        valid_channel_count(self.number_of_channels as int)
    }

    /// Number of channels of the silence that stands in for a late buffer.
    pub closed spec fn channels(&self) -> usize {
        self.number_of_channels
    }

    /// Frames per second of the silence that stands in for a late buffer.
    pub closed spec fn rate(&self) -> u32 {
        self.sample_rate
    }

    /// The queue that the consuming end reads.
    pub closed spec fn queue(&self) -> Receiver<AudioBuffer> {
        self.receiver
    }

    /// The consuming end of the queue behind `receiver`. Fails when the
    /// channel count is invalid.
    pub fn new(receiver: Receiver<AudioBuffer>, number_of_channels: usize, sample_rate: u32) -> (r: Result<
        OutputStream,
        ConfigurationError,
    >)
        ensures
            r is Ok <==> valid_channel_count(number_of_channels as int),
            r matches Ok(s) ==> s.channels() == number_of_channels && s.rate() == sample_rate && s.queue()
                == receiver,
            r matches Err(e) ==> e == ConfigurationError::InvalidChannelCount,
    {
        if number_of_channels < 1 || number_of_channels > MAX_CHANNELS {
            return Err(ConfigurationError::InvalidChannelCount);
        }
        Ok(OutputStream { receiver, number_of_channels, sample_rate })
    }

    /// What the hardware gets for each way a receive can end: the buffer
    /// that arrived; silence of the stream's shape when none was ready; the
    /// end of the stream once the render loop is gone.
    pub fn deliver(&self, received: Received<AudioBuffer>) -> (r: Option<AudioBuffer>)
        ensures
            received matches Received::Message(b) ==> r == Some(b),
            received is Empty ==> r is Some && r->0@ == silent_channels(self.channels() as nat)
                && r->0.rate() == self.rate(),
            received is Disconnected ==> r is None,
            r matches Some(b) ==> quantum_shaped(b@),
    {
        proof {
            use_type_invariant(self);
        }
        match received {
            Received::Message(buffer) => {
                // Asking any buffer for its channel count recalls its shape.
                buffer.number_of_channels();
                Some(buffer)
            },
            Received::Empty => AudioBuffer::silent(self.number_of_channels, self.sample_rate),
            Received::Disconnected => None,
        }
    }

    /// The buffer for this quantum, or `None` once the stream has ended.
    /// Never waits: see [`OutputStream::deliver`] for what is yielded in
    /// each case.
    pub fn next(&mut self) -> (r: Option<AudioBuffer>)
        ensures
            final(self).queue() == old(self).queue(),
            final(self).channels() == old(self).channels(),
            final(self).rate() == old(self).rate(),
            r matches Some(b) ==> quantum_shaped(b@),
    {
        let received = try_recv(&self.receiver);
        self.deliver(received)
    }
}

/// The samples of a buffer frame by frame, as the hardware takes them.
pub fn interleave(buffer: &AudioBuffer) -> (r: Vec<u32>)
    ensures
        r@ == interleaved(buffer@),
{
    let n = buffer.number_of_channels();
    let mut data: Vec<u32> = Vec::new();
    let mut f: usize = 0;
    while f < RENDER_QUANTUM_SIZE
        invariant
            f <= RENDER_QUANTUM_SIZE,
            n == buffer@.len(),
            quantum_shaped(buffer@),
            data@.len() == f * n,
            forall|i: int| 0 <= i < data@.len() ==> data@[i] == buffer@[i % (n as int)][i / (n as int)],
        decreases RENDER_QUANTUM_SIZE - f,
    {
        let mut c: usize = 0;
        while c < n
            invariant
                c <= n,
                f < RENDER_QUANTUM_SIZE,
                n == buffer@.len(),
                quantum_shaped(buffer@),
                data@.len() == f * n + c,
                forall|i: int| 0 <= i < data@.len() ==> data@[i] == buffer@[i % (n as int)][i / (n as int)],
            decreases n - c,
        {
            let sample = match buffer.channel(c) {
                Some(channel) => channel[f],
                None => vstd::pervasive::unreached(),
            };
            proof {
                lemma_position(n as int, c as int, f as int);
            }
            data.push(sample);
            c += 1;
        }
        proof {
            assert(f * n + n == (f + 1) * n) by (nonlinear_arith);
        }
        f += 1;
    }
    proof {
        assert(RENDER_QUANTUM_SIZE * n == n * RENDER_QUANTUM_SIZE) by (nonlinear_arith);
    }
    data
}

} // verus!
