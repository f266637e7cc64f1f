//! The unit of audio data that flows along the edges of the graph.

use vstd::prelude::*;
use crate::{MAX_CHANNELS, RENDER_QUANTUM_SIZE};

verus! {

/// Bit pattern of a silent sample (positive zero).
pub const SILENCE: u32 = 0;

/// One render quantum of audio: between one and `MAX_CHANNELS` channels of
/// exactly `RENDER_QUANTUM_SIZE` samples each.
pub struct AudioBuffer {
    channels: Vec<Vec<u32>>,
    sample_rate: u32,
}

/// Whether `n` is an acceptable number of channels.
pub open spec fn valid_channel_count(n: int) -> bool {
    1 <= n <= MAX_CHANNELS
}

/// Whether `channels` has the shape of one render quantum.
pub open spec fn quantum_shaped(channels: Seq<Seq<u32>>) -> bool {
    &&& valid_channel_count(channels.len() as int)
    &&& forall|c: int| 0 <= c < channels.len() ==> (#[trigger] channels[c]).len() == RENDER_QUANTUM_SIZE
}

/// One channel of silence.
pub open spec fn silent_samples() -> Seq<u32> {
    Seq::new(RENDER_QUANTUM_SIZE as nat, |f: int| SILENCE)
}

/// The silent quantum with `n` channels.
pub open spec fn silent_channels(n: nat) -> Seq<Seq<u32>> {
    Seq::new(n, |c: int| silent_samples())
}

/// Channel `c`, frame `f` of an interleaved block with `n` channels is the
/// sample at position `f * n + c`.
pub open spec fn deinterleaved(data: Seq<u32>, n: nat) -> Seq<Seq<u32>> {
    Seq::new(n, |c: int| Seq::new(RENDER_QUANTUM_SIZE as nat, |f: int| data[f * n + c]))
}

/// The samples of each of the given channels.
pub open spec fn views(channels: Seq<Vec<u32>>) -> Seq<Seq<u32>> {
    Seq::new(channels.len(), |c: int| channels[c]@)
}

impl View for AudioBuffer {
    type V = Seq<Seq<u32>>;

    closed spec fn view(&self) -> Seq<Seq<u32>> {
        views(self.channels@)
    }
}

impl AudioBuffer {
    #[verifier::type_invariant]
    spec fn well_formed(&self) -> bool {
        quantum_shaped(self@)
    }

    /// The sample rate, in frames per second, that the buffer was made with.
    pub closed spec fn rate(&self) -> u32 {
        self.sample_rate
    }

    /// A buffer of `number_of_channels` silent channels, or `None` when the
    /// channel count is not between one and `MAX_CHANNELS`.
    pub fn silent(number_of_channels: usize, sample_rate: u32) -> (r: Option<AudioBuffer>)
        ensures
            r is Some <==> valid_channel_count(number_of_channels as int),
            r matches Some(b) ==> b@ == silent_channels(number_of_channels as nat) && b.rate()
                == sample_rate,
    {
        if number_of_channels < 1 || number_of_channels > MAX_CHANNELS {
            return None;
        }
        let mut channels: Vec<Vec<u32>> = Vec::new();
        let mut c: usize = 0;
        while c < number_of_channels
            invariant
                c <= number_of_channels,
                channels@.len() == c,
                forall|i: int| 0 <= i < c ==> (#[trigger] channels@[i])@ == silent_samples(),
            decreases number_of_channels - c,
        {
            let mut channel: Vec<u32> = Vec::new();
            let mut f: usize = 0;
            while f < RENDER_QUANTUM_SIZE
                invariant
                    f <= RENDER_QUANTUM_SIZE,
                    channel@.len() == f,
                    forall|j: int| 0 <= j < f ==> channel@[j] == SILENCE,
                decreases RENDER_QUANTUM_SIZE - f,
            {
                channel.push(SILENCE);
                f += 1;
            }
            channels.push(channel);
            c += 1;
        }
        let b = AudioBuffer { channels, sample_rate };
        Some(b)
    }

    /// Splits one interleaved block into its channels.
    ///
    /// The block is accepted when the channel count is valid and the block
    /// holds exactly one quantum for each channel.
    pub fn from_interleaved(data: &[u32], number_of_channels: usize, sample_rate: u32) -> (r:
        Option<AudioBuffer>)
        ensures
            r is Some <==> valid_channel_count(number_of_channels as int) && data@.len()
                == number_of_channels * RENDER_QUANTUM_SIZE,
            r matches Some(b) ==> b@ == deinterleaved(data@, number_of_channels as nat) && b.rate()
                == sample_rate,
    {
        if number_of_channels < 1 || number_of_channels > MAX_CHANNELS {
            return None;
        }
        if data.len() != number_of_channels * RENDER_QUANTUM_SIZE {
            return None;
        }
        let n = number_of_channels;
        let mut channels: Vec<Vec<u32>> = Vec::new();
        let mut c: usize = 0;
        while c < n
            invariant
                c <= n <= MAX_CHANNELS,
                data@.len() == n * RENDER_QUANTUM_SIZE,
                channels@.len() == c,
                forall|i: int| 0 <= i < c ==> (#[trigger] channels@[i])@ == Seq::new(
                    RENDER_QUANTUM_SIZE as nat,
                    |f: int| data@[f * n + i],
                ),
            decreases n - c,
        {
            let mut channel: Vec<u32> = Vec::new();
            let mut f: usize = 0;
            while f < RENDER_QUANTUM_SIZE
                invariant
                    f <= RENDER_QUANTUM_SIZE,
                    c < n <= MAX_CHANNELS,
                    data@.len() == n * RENDER_QUANTUM_SIZE,
                    channel@.len() == f,
                    forall|j: int| 0 <= j < f ==> channel@[j] == data@[j * n + c],
                decreases RENDER_QUANTUM_SIZE - f,
            {
                assert(f * n + c < n * RENDER_QUANTUM_SIZE) by (nonlinear_arith)
                    requires
                        f < RENDER_QUANTUM_SIZE,
                        c < n,
                ;
                channel.push(data[f * n + c]);
                f += 1;
            }
            channels.push(channel);
            c += 1;
        }
        let b = AudioBuffer { channels, sample_rate };
        Some(b)
    }

    /// The buffer that holds the given channels, if they have the shape of
    /// one render quantum.
    pub fn from_channels(channels: Vec<Vec<u32>>, sample_rate: u32) -> (r: Option<AudioBuffer>)
        ensures
            r is Some <==> quantum_shaped(views(channels@)),
            r matches Some(b) ==> b@ == views(channels@) && b.rate() == sample_rate,
    {
        let n = channels.len();
        if n < 1 || n > MAX_CHANNELS {
            return None;
        }
        let mut c: usize = 0;
        while c < n
            invariant
                c <= n,
                n == channels.len(),
                forall|i: int| 0 <= i < c ==> (#[trigger] channels@[i])@.len() == RENDER_QUANTUM_SIZE,
            decreases n - c,
        {
            if channels[c].len() != RENDER_QUANTUM_SIZE {
                proof {
                    assert(views(channels@)[c as int].len() != RENDER_QUANTUM_SIZE);
                }
                return None;
            }
            c += 1;
        }
        Some(AudioBuffer { channels, sample_rate })
    }

    /// Number of channels, between one and `MAX_CHANNELS`.
    pub fn number_of_channels(&self) -> (n: usize)
        ensures
            n == self@.len(),
            quantum_shaped(self@),
    {
        proof {
            use_type_invariant(self);
        }
        self.channels.len()
    }

    /// Number of frames in each channel.
    pub fn length(&self) -> (n: usize)
        ensures
            n == RENDER_QUANTUM_SIZE,
    {
        RENDER_QUANTUM_SIZE
    }

    /// The sample rate the buffer was made with.
    pub fn sample_rate(&self) -> (r: u32)
        ensures
            r == self.rate(),
    {
        self.sample_rate
    }

    /// The samples of channel `index`, or `None` past the last channel.
    pub fn channel(&self, index: usize) -> (r: Option<&Vec<u32>>)
        ensures
            r is Some <==> index < self@.len(),
            r matches Some(c) ==> c@ == self@[index as int] && c@.len() == RENDER_QUANTUM_SIZE,
    {
        proof {
            use_type_invariant(self);
        }
        if index < self.channels.len() {
            Some(&self.channels[index])
        } else {
            None
        }
    }
}

} // verus!
