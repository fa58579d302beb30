use vstd::arithmetic::div_mod::{lemma_fundamental_div_mod, lemma_fundamental_div_mod_converse};
use vstd::arithmetic::mul::{lemma_mul_inequality, lemma_mul_is_commutative};
use crate::sample_source::{SampleSource, SampleSourceError};
use crate::source_reader::SourceReader;
use vstd::prelude::*;

verus! {

/// The largest channel count a resampler accepts.
pub const MAX_RESAMPLER_CHANNELS: usize = 16;

/// How a resampler is driven.
#[derive(Clone, Copy, Debug, PartialEq, Eq, Hash, Structural)]
pub enum ResamplerMode {
    /// Fixed input size, variable output (for decoding).
    FixedInput { input_frames: usize },
    /// Fixed output size, variable input (for block-based processing).
    FixedOutput { output_frames: usize },
}

/// Errors from resampling.
#[derive(Clone, Debug, PartialEq, Eq)]
pub enum ResamplingError {
    /// The backing resampler could not be built; the text says why.
    Construction(String),
    /// The backing resampler failed while processing; the text says why.
    Process(String),
    /// A channel count of zero or more than [MAX_RESAMPLER_CHANNELS].
    InvalidChannelCount(usize),
}

/// Which resampler a conditional resampler is built from.
#[derive(Clone, Copy, Debug, PartialEq, Eq, Hash, Structural)]
pub enum ResamplerPlan {
    /// The rates match: copy frames through, `frames` at a time.
    Passthrough { channels: usize, frames: usize },
    /// Resample with a fixed number of input frames per call.
    FixedIn { source_rate: u32, target_rate: u32, channels: usize, input_frames: usize },
    /// Resample with a fixed number of output frames per call.
    FixedOut { source_rate: u32, target_rate: u32, channels: usize, output_frames: usize },
}

/// The plan for a conditional resampler: refuse bad channel counts, pass through when the rates match, and
/// otherwise resample in the requested mode.
pub open spec fn resampler_plan(source_rate: u32, target_rate: u32, channels: usize, mode: ResamplerMode) -> Result<
    ResamplerPlan,
    ResamplingError,
> {
    if channels == 0 || channels > MAX_RESAMPLER_CHANNELS {
        Err(ResamplingError::InvalidChannelCount(channels))
    } else if source_rate != target_rate {
        match mode {
            ResamplerMode::FixedInput { input_frames } => Ok(
                ResamplerPlan::FixedIn { source_rate, target_rate, channels, input_frames },
            ),
            ResamplerMode::FixedOutput { output_frames } => Ok(
                ResamplerPlan::FixedOut { source_rate, target_rate, channels, output_frames },
            ),
        }
    } else {
        Ok(
            ResamplerPlan::Passthrough {
                channels,
                frames: match mode {
                    ResamplerMode::FixedInput { input_frames } => input_frames,
                    ResamplerMode::FixedOutput { output_frames } => output_frames,
                },
            },
        )
    }
}

impl ResamplerPlan {
    /// Decide how to resample from `source_rate` to `target_rate` with `channels` channels.
    pub fn select(source_rate: u32, target_rate: u32, channels: usize, mode: ResamplerMode) -> (r: Result<
        ResamplerPlan,
        ResamplingError,
    >)
        ensures
            r == resampler_plan(source_rate, target_rate, channels, mode),
    {
        if channels == 0 || channels > MAX_RESAMPLER_CHANNELS {
            return Err(ResamplingError::InvalidChannelCount(channels));
        }
        if source_rate != target_rate {
            match mode {
                ResamplerMode::FixedInput { input_frames } => Ok(
                    ResamplerPlan::FixedIn { source_rate, target_rate, channels, input_frames },
                ),
                ResamplerMode::FixedOutput { output_frames } => Ok(
                    ResamplerPlan::FixedOut { source_rate, target_rate, channels, output_frames },
                ),
            }
        } else {
            let frames = match mode {
                ResamplerMode::FixedInput { input_frames } => input_frames,
                ResamplerMode::FixedOutput { output_frames } => output_frames,
            };
            Ok(ResamplerPlan::Passthrough { channels, frames })
        }
    }

    /// Whether this plan actually resamples.
    pub fn is_resampling(&self) -> (r: bool)
        ensures
            r == !(self is Passthrough),
    {
        match self {
            ResamplerPlan::Passthrough { .. } => false,
            _ => true,
        }
    }
}

/// Frame `f` of channel `c` in interleaved data with `channels` channels lives at `f * channels + c`, and
/// that index determines the frame and channel.
proof fn lemma_interleaved_index(f: int, c: int, channels: int, frames: int)
    requires
        0 <= c < channels,
        0 <= f < frames,
    ensures
        0 <= f * channels + c < frames * channels,
        (f * channels + c) / channels == f,
        (f * channels + c) % channels == c,
        (f + 1) * channels == f * channels + channels,
{
    lemma_fundamental_div_mod_converse(f * channels + c, channels, f, c);
    lemma_mul_inequality(f + 1, frames, channels);
    assert((f + 1) * channels == f * channels + channels) by (nonlinear_arith);
}

/// Split `frames` frames of interleaved `input` into one vector per channel of `output`.
pub fn deinterleave<T: Copy>(input: &[T], output: &mut Vec<Vec<T>>, frames: usize)
    requires
        old(output)@.len() > 0,
        input@.len() >= frames * old(output)@.len(),
        forall|c: int| 0 <= c < old(output)@.len() ==> old(output)@[c]@.len() >= frames,
    ensures
        final(output)@.len() == old(output)@.len(),
        forall|c: int| 0 <= c < final(output)@.len() ==> final(output)@[c]@.len() == old(output)@[c]@.len(),
        forall|c: int, f: int|
            0 <= c < final(output)@.len() && 0 <= f < frames ==> #[trigger] final(output)@[c]@[f] == input@[f
                * old(output)@.len() + c],
        forall|c: int, f: int|
            0 <= c < final(output)@.len() && frames <= f < final(output)@[c]@.len()
                ==> #[trigger] final(output)@[c]@[f] == old(output)@[c]@[f],
{
    let channels = output.len();
    let in_len = input.len();
    let mut frame: usize = 0;
    while frame < frames
        invariant
            channels == output@.len(),
            channels == old(output)@.len(),
            channels > 0,
            frame <= frames,
            input@.len() >= frames * channels,
            in_len == input@.len(),
            forall|c: int| 0 <= c < channels ==> output@[c]@.len() == old(output)@[c]@.len(),
            forall|c: int| 0 <= c < channels ==> old(output)@[c]@.len() >= frames,
            forall|c: int, f: int|
                0 <= c < channels && 0 <= f < frame ==> #[trigger] output@[c]@[f] == input@[f * channels + c],
            forall|c: int, f: int|
                0 <= c < channels && frame <= f < output@[c]@.len() ==> #[trigger] output@[c]@[f] == old(
                    output,
                )@[c]@[f],
        decreases frames - frame,
    {
        let mut channel: usize = 0;
        while channel < channels
            invariant
                channels == output@.len(),
                channels == old(output)@.len(),
                channels > 0,
                frame < frames,
                channel <= channels,
                input@.len() >= frames * channels,
                in_len == input@.len(),
                forall|c: int| 0 <= c < channels ==> output@[c]@.len() == old(output)@[c]@.len(),
                forall|c: int| 0 <= c < channels ==> old(output)@[c]@.len() >= frames,
                forall|c: int, f: int|
                    0 <= c < channels && 0 <= f < frame ==> #[trigger] output@[c]@[f] == input@[f * channels
                        + c],
                forall|c: int| 0 <= c < channel ==> #[trigger] output@[c]@[frame as int] == input@[frame * channels + c],
                forall|c: int, f: int|
                    0 <= c < channels && frame < f < output@[c]@.len() ==> #[trigger] output@[c]@[f] == old(
                        output,
                    )@[c]@[f],
                forall|c: int|
                    channel <= c < channels ==> #[trigger] output@[c]@[frame as int] == old(output)@[c]@[frame as int],
            decreases channels - channel,
        {
            proof {
                lemma_interleaved_index(frame as int, channel as int, channels as int, frames as int);
            }
            let v = input[frame * channels + channel];
            output[channel][frame] = v;
            channel = channel + 1;
        }
        frame = frame + 1;
    }
}

/// Merge `frames` frames from one vector per channel of `input` into interleaved `output`.
pub fn interleave<T: Copy>(input: &[Vec<T>], output: &mut [T], frames: usize)
    requires
        input@.len() > 0,
        old(output)@.len() >= frames * input@.len(),
        forall|c: int| 0 <= c < input@.len() ==> input@[c]@.len() >= frames,
    ensures
        final(output)@.len() == old(output)@.len(),
        forall|k: int|
            0 <= k < frames * input@.len() ==> #[trigger] final(output)@[k] == input@[k % (input@.len() as int)]@[k
                / (input@.len() as int)],
        forall|k: int|
            frames * input@.len() <= k < final(output)@.len() ==> #[trigger] final(output)@[k] == old(output)@[k],
{
    let channels = input.len();
    let out_len = output.len();
    let mut frame: usize = 0;
    while frame < frames
        invariant
            channels == input@.len(),
            channels > 0,
            frame <= frames,
            output@.len() == old(output)@.len(),
            output@.len() >= frames * channels,
            out_len == output@.len(),
            forall|c: int| 0 <= c < channels ==> input@[c]@.len() >= frames,
            forall|k: int|
                0 <= k < frame * channels ==> #[trigger] output@[k] == input@[k % (channels as int)]@[k / (
                channels as int)],
            forall|k: int| frame * channels <= k < output@.len() ==> #[trigger] output@[k] == old(output)@[k],
        decreases frames - frame,
    {
        let mut channel: usize = 0;
        proof {
            lemma_interleaved_index(frame as int, 0, channels as int, frames as int);
        }
        while channel < channels
            invariant
                channels == input@.len(),
                channels > 0,
                frame < frames,
                channel <= channels,
                output@.len() == old(output)@.len(),
                output@.len() >= frames * channels,
                out_len == output@.len(),
                (frame + 1) * channels == frame * channels + channels,
                forall|c: int| 0 <= c < channels ==> input@[c]@.len() >= frames,
                forall|k: int|
                    0 <= k < frame * channels + channel ==> #[trigger] output@[k] == input@[k % (
                    channels as int)]@[k / (channels as int)],
                forall|k: int|
                    frame * channels + channel <= k < output@.len() ==> #[trigger] output@[k] == old(output)@[k],
            decreases channels - channel,
        {
            proof {
                lemma_interleaved_index(frame as int, channel as int, channels as int, frames as int);
            }
            let v = input[channel][frame];
            output[frame * channels + channel] = v;
            channel = channel + 1;
        }
        frame = frame + 1;
    }
}

/// A resampler for matching rates: copies whole frames from input to output.
#[derive(Clone, Copy, Debug, PartialEq, Eq, Hash)]
pub struct PassthroughResampler {
    channels: usize,
    frames_per_process: usize,
}

impl PassthroughResampler {
    /// Channels per frame.
    pub closed spec fn channel_count(self) -> usize {
        self.channels
    }

    /// Frames handled per call.
    pub closed spec fn frames_per_call(self) -> usize {
        self.frames_per_process
    }

    /// A passthrough resampler for `channels` channels, `frames_per_process` frames at a time.
    pub fn new(channels: usize, frames_per_process: usize) -> (r: Self)
        ensures
            r.channel_count() == channels,
            r.frames_per_call() == frames_per_process,
    {
        PassthroughResampler { channels, frames_per_process }
    }

    /// Copy as many whole frames as both `input` and `output` hold, returning the frames consumed and
    /// produced, which are equal.
    pub fn process<T: Copy>(&mut self, input: &[T], output: &mut [T]) -> (r: Result<
        (usize, usize),
        ResamplingError,
    >)
        requires
            old(self).channel_count() > 0,
        ensures
            *final(self) == *old(self),
            final(output)@.len() == old(output)@.len(),
            ({
                let ch = old(self).channel_count() as int;
                let a = input@.len() as int / ch;
                let b = old(output)@.len() as int / ch;
                let frames = if a < b { a } else { b };
                &&& r == Ok::<(usize, usize), ResamplingError>((frames as usize, frames as usize))
                &&& final(output)@ == input@.subrange(0, frames * ch) + old(output)@.subrange(
                    frames * ch,
                    old(output)@.len() as int,
                )
            }),
    {
        let input_frames = input.len() / self.channels;
        let output_frames = output.len() / self.channels;
        let frames = if input_frames < output_frames {
            input_frames
        } else {
            output_frames
        };
        proof {
            lemma_fundamental_div_mod(input@.len() as int, self.channels as int);
            lemma_fundamental_div_mod(output@.len() as int, self.channels as int);
            lemma_mul_inequality(frames as int, input_frames as int, self.channels as int);
            lemma_mul_inequality(frames as int, output_frames as int, self.channels as int);
            lemma_mul_is_commutative(self.channels as int, input_frames as int);
            lemma_mul_is_commutative(self.channels as int, output_frames as int);
        }
        let samples = frames * self.channels;
        let mut i: usize = 0;
        while i < samples
            invariant
                samples <= input@.len(),
                samples <= output@.len(),
                output@.len() == old(output)@.len(),
                i <= samples,
                forall|k: int| 0 <= k < i ==> output@[k] == input@[k],
                forall|k: int| i <= k < output@.len() ==> output@[k] == old(output)@[k],
            decreases samples - i,
        {
            output[i] = input[i];
            i = i + 1;
        }
        proof {
            assert(output@ =~= input@.subrange(0, samples as int) + old(output)@.subrange(
                samples as int,
                old(output)@.len() as int,
            ));
        }
        Ok((frames, frames))
    }

    /// The most input frames one call needs.
    pub fn input_frames_max(&mut self) -> (r: usize)
        ensures
            r == old(self).frames_per_call(),
            *final(self) == *old(self),
    {
        self.frames_per_process
    }

    /// The most output frames one call produces.
    pub fn output_frames_max(&mut self) -> (r: usize)
        ensures
            r == old(self).frames_per_call(),
            *final(self) == *old(self),
    {
        self.frames_per_process
    }

    /// Input frames the next call needs.
    pub fn input_frames_next(&mut self) -> (r: usize)
        ensures
            r == old(self).frames_per_call(),
            *final(self) == *old(self),
    {
        self.frames_per_process
    }

    /// Output frames the next call produces.
    pub fn output_frames_next(&mut self) -> (r: usize)
        ensures
            r == old(self).frames_per_call(),
            *final(self) == *old(self),
    {
        self.frames_per_process
    }

    /// A passthrough never resamples.
    pub fn is_resampling(&self) -> (r: bool)
        ensures
            !r,
    {
        false
    }
}

/// Read the input of one resampling step: up to `frames` frames from `reader` into `interleaved`, silence after
/// the frames read, then the whole step split into one plane per channel.
///
/// Returns the frames read.  The first frames of `interleaved` are what the reader wrote; every sample after
/// them is `silence`; channel `c` of frame `f` lands at `planes[c][f]`.
pub fn read_planar<S: SampleSource>(
    reader: &mut SourceReader<S>,
    interleaved: &mut [S::Sample],
    frames: usize,
    planes: &mut Vec<Vec<S::Sample>>,
    silence: S::Sample,
) -> (r: Result<u64, SampleSourceError>) where S::Sample: Copy
    requires
        old(reader).wf(),
        old(interleaved)@.len() == frames * old(reader).descriptor_view().channel_format.channel_count(),
        old(planes)@.len() == old(reader).descriptor_view().channel_format.channel_count(),
        forall|c: int| 0 <= c < old(planes)@.len() ==> old(planes)@[c]@.len() >= frames,
        old(reader).has_room_for(frames as nat),
    ensures
        final(reader).wf(),
        final(reader).descriptor_view() == old(reader).descriptor_view(),
        final(interleaved)@.len() == old(interleaved)@.len(),
        final(planes)@.len() == old(planes)@.len(),
        exists|read: Seq<S::Sample>|
            {
                &&& #[trigger] old(reader).read_result(*final(reader), old(interleaved)@, read, r)
                &&& r is Err ==> final(interleaved)@ == read
                &&& r matches Ok(got) ==> final(interleaved)@.take(
                    got * old(reader).descriptor_view().channel_format.channel_count(),
                ) == read.take(got * old(reader).descriptor_view().channel_format.channel_count())
            },
        r matches Ok(got) ==> {
            let chans = old(reader).descriptor_view().channel_format.channel_count();
            &&& got <= frames
            &&& forall|k: int|
                got * chans <= k < final(interleaved)@.len() ==> #[trigger] final(interleaved)@[k] == silence
            &&& forall|c: int, f: int|
                0 <= c < chans && 0 <= f < frames ==> #[trigger] final(planes)@[c]@[f] == final(interleaved)@[f * chans
                    + c]
        },
{
    let chans = reader.descriptor().get_channel_count();
    proof {
        vstd::arithmetic::div_mod::lemma_mod_multiples_basic(frames as int, chans as int);
        vstd::arithmetic::div_mod::lemma_div_multiples_vanish(frames as int, chans as int);
        lemma_mul_is_commutative(frames as int, chans as int);
    }
    let got = match reader.read_samples(interleaved) {
        Ok(g) => g,
        Err(e) => {
            return Err(e);
        },
    };
    let ghost read = interleaved@;
    proof {
        assert(interleaved@.len() == frames * chans);
        assert(interleaved@.len() / (chans as nat) == frames);
        assert(got <= frames);
        lemma_mul_inequality(got as int, frames as int, chans as int);
        assert(got * chans <= interleaved@.len());
    }
    let len = interleaved.len();
    let g = got as usize;
    let start = g * chans;
    let mut k: usize = start;
    while k < len
        invariant
            start <= k <= len,
            len == interleaved@.len(),
            forall|j: int| start <= j < k ==> #[trigger] interleaved@[j] == silence,
            forall|j: int| 0 <= j < start ==> #[trigger] interleaved@[j] == read[j],
            read.len() == len,
        decreases len - k,
    {
        interleaved[k] = silence;
        k = k + 1;
    }
    proof {
        assert(interleaved@.take(got * chans) =~= read.take(got * chans));
    }
    deinterleave(interleaved, planes, frames);
    Ok(got)
}

/// A plan resamples exactly when the rates differ.  With an accepted channel count, equal rates pass the audio
/// through, as many frames at a time as the mode names, in either mode; different rates resample between
/// exactly those rates, in the mode asked for and with its frame count.  Any other channel count is refused,
/// naming the count.
pub proof fn lemma_plan_resamples_iff_rates_differ(
    source_rate: u32,
    target_rate: u32,
    channels: usize,
    mode: ResamplerMode,
)
    ensures
        ({
            let r = resampler_plan(source_rate, target_rate, channels, mode);
            &&& r is Ok <==> 0 < channels <= MAX_RESAMPLER_CHANNELS
            &&& r is Err ==> r == Err::<ResamplerPlan, ResamplingError>(ResamplingError::InvalidChannelCount(channels))
            &&& r is Ok ==> (r->Ok_0 is Passthrough <==> source_rate == target_rate)
            &&& r matches Ok(ResamplerPlan::Passthrough { channels: c, frames: f }) ==> {
                &&& c == channels
                &&& mode matches ResamplerMode::FixedInput { input_frames } ==> f == input_frames
                &&& mode matches ResamplerMode::FixedOutput { output_frames } ==> f == output_frames
            }
            &&& r matches Ok(ResamplerPlan::FixedIn { source_rate: s, target_rate: t, channels: c, input_frames: n }) ==> {
                &&& s == source_rate && t == target_rate && c == channels
                &&& mode == ResamplerMode::FixedInput { input_frames: n }
            }
            &&& r matches Ok(ResamplerPlan::FixedOut { source_rate: s, target_rate: t, channels: c, output_frames: n }) ==> {
                &&& s == source_rate && t == target_rate && c == channels
                &&& mode == ResamplerMode::FixedOutput { output_frames: n }
            }
        }),
{
}

} // verus!
