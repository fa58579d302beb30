use crate::channel_format::ChannelFormat;
use crate::nonzero::NonZeroRate;
use vstd::prelude::*;

verus! {

/// How well a source can seek.
#[derive(Clone, Copy, Debug, PartialEq, Eq, Hash, Structural)]
pub enum SeekSupport {
    /// The source cannot seek at all.
    Unsupported,
    /// The source can only seek back to its beginning.
    ToBeginning,
    /// The source can seek anywhere, but may land near rather than at the requested frame.
    Imprecise,
    /// The source can seek to any frame exactly.
    SampleAccurate,
}

/// Whether a source may be read from the audio thread.
#[derive(Clone, Copy, Debug, PartialEq, Eq, Hash, Structural)]
pub enum Latency {
    /// Reading never blocks or allocates; the source may run inline on the audio thread.
    AudioThreadSafe,
    /// Reading may block, so the source must run on a background thread.
    Background,
}

impl Latency {
    /// Whether the source may run on the audio thread.
    pub fn is_audio_thread_safe(&self) -> (r: bool)
        ensures
            r == (*self == Latency::AudioThreadSafe),
    {
        match self {
            Latency::AudioThreadSafe => true,
            Latency::Background => false,
        }
    }
}

/// Describes the characteristics of a source.
#[derive(Clone, Copy, Debug, PartialEq, Eq)]
pub struct Descriptor {
    /// Sampling rate of the source's audio.
    pub sample_rate: NonZeroRate,
    /// Length in frames, if known.
    pub duration: Option<u64>,
    /// Channel layout of each frame.
    pub channel_format: ChannelFormat,
    /// How the source can seek.
    pub seek_support: SeekSupport,
    /// Where the source may run.
    pub latency: Latency,
}

impl Descriptor {
    /// Number of channels in one frame, which is never zero.
    pub fn get_channel_count(&self) -> (r: usize)
        ensures
            r == self.channel_format.channel_count(),
            r > 0,
    {
        self.channel_format.channels()
    }
}

/// Which required setting of a builder was left out.
#[derive(Clone, Copy, Debug, PartialEq, Eq, Hash, Structural)]
pub enum MissingSetting {
    ChannelFormat,
    SampleRate,
}

/// Errors from sources of samples.
#[derive(Clone, Debug, PartialEq, Eq)]
pub enum SampleSourceError {
    /// A builder was asked to build without a required setting.
    Missing(MissingSetting),
    /// Sample data whose length is not a whole number of frames.
    PartialFrame,
    /// The backing implementation failed; the text says how.
    Failed(String),
}

/// A source of interleaved audio samples.
///
/// Sources report their [Descriptor], read frames into slices, and seek.  The descriptor of a source never
/// changes.
pub trait SampleSource {
    /// The type of one sample.
    type Sample;

    /// The descriptor of this source.
    spec fn descriptor_spec(&self) -> Descriptor;

    /// Whether this source will never produce data again.
    spec fn finished_spec(&self) -> bool;

    /// Whether the audio of this source is known exactly, as [SampleSource::audio_spec] read from
    /// [SampleSource::position_spec] on.  Reads and seeks of such a source never fail, a seek lands on the
    /// frame asked for, and a read gives as many of the next frames as fit (see [exact_read]).  A source whose
    /// audio only its own code can tell leaves this false.
    open spec fn exact_spec(&self) -> bool {
        false
    }

    /// The interleaved samples of the whole source, where [SampleSource::exact_spec] holds.
    open spec fn audio_spec(&self) -> Seq<Self::Sample> {
        Seq::empty()
    }

    /// The frame the next read starts at, where [SampleSource::exact_spec] holds.
    open spec fn position_spec(&self) -> nat {
        0
    }

    /// Describe this source.
    fn get_descriptor(&self) -> (r: Descriptor)
        ensures
            r == self.descriptor_spec(),
    ;

    /// Seek to a frame.  When the duration is known the frame must lie inside the audio; seeking to 0 is
    /// always allowed, also on a source with no frames.
    fn seek(&mut self, position_in_frames: u64) -> (r: Result<(), SampleSourceError>)
        requires
            old(self).descriptor_spec().duration matches Some(d) ==> (position_in_frames < d || position_in_frames
                == 0),
        ensures
            final(self).descriptor_spec() == old(self).descriptor_spec(),
            old(self).exact_spec() ==> {
                &&& r is Ok
                &&& final(self).exact_spec()
                &&& final(self).audio_spec() == old(self).audio_spec()
                &&& final(self).position_spec() == position_in_frames
            },
    ;

    /// Write whole frames of interleaved audio to the front of `destination`, whose length is a multiple of
    /// the channel count, and return how many frames were written.  Zero frames means the end of the source.
    /// The samples after the frames written are left as they were.
    fn read_samples(&mut self, destination: &mut [Self::Sample]) -> (r: Result<u64, SampleSourceError>)
        requires
            old(destination)@.len() % old(self).descriptor_spec().channel_format.channel_count() == 0,
        ensures
            final(self).descriptor_spec() == old(self).descriptor_spec(),
            final(destination)@.len() == old(destination)@.len(),
            r matches Ok(n) ==> n * old(self).descriptor_spec().channel_format.channel_count()
                <= old(destination)@.len(),
            r matches Ok(n) ==> final(destination)@.subrange(
                n * old(self).descriptor_spec().channel_format.channel_count(),
                old(destination)@.len() as int,
            ) == old(destination)@.subrange(
                n * old(self).descriptor_spec().channel_format.channel_count(),
                old(destination)@.len() as int,
            ),
            old(self).exact_spec() ==> {
                let chans = old(self).descriptor_spec().channel_format.channel_count();
                let total = old(self).audio_spec().len() / chans;
                let pos = old(self).position_spec();
                let left: nat = if pos < total {
                    (total - pos) as nat
                } else {
                    0
                };
                let wanted = old(destination)@.len() / chans;
                let n: nat = if wanted < left {
                    wanted
                } else {
                    left
                };
                &&& r == Ok::<u64, SampleSourceError>(n as u64)
                &&& final(self).exact_spec()
                &&& final(self).audio_spec() == old(self).audio_spec()
                &&& final(self).position_spec() == pos + n
                &&& final(destination)@.subrange(0, (n * chans) as int) == old(self).audio_spec().subrange(
                    (pos * chans) as int,
                    ((pos + n) * chans) as int,
                )
            },
    ;

    /// Whether this source will never produce data again, for example because it failed.
    fn is_permanently_finished(&self) -> (r: bool)
        ensures
            r == self.finished_spec(),
    ;
}

/// Frames an exact source has left from its position on.
pub open spec fn frames_left<S: SampleSource + ?Sized>(s: &S) -> nat {
    let total = s.audio_spec().len() / s.descriptor_spec().channel_format.channel_count();
    if s.position_spec() < total {
        (total - s.position_spec()) as nat
    } else {
        0
    }
}

/// Frames an exact source gives to a read of `wanted` frames: all that are wanted, or all that are left.
pub open spec fn exact_count<S: SampleSource + ?Sized>(s: &S, wanted: nat) -> nat {
    if wanted < frames_left(s) {
        wanted
    } else {
        frames_left(s)
    }
}

/// An exact source `s`, read into `dest0`, returned `r` and left itself as `next` and the destination as
/// `dest1`: the read succeeded with as many frames as fit, those frames are the source's audio from its
/// position on, and the source moved past them.
pub open spec fn exact_read<S: SampleSource + ?Sized>(
    s: &S,
    next: &S,
    dest0: Seq<S::Sample>,
    dest1: Seq<S::Sample>,
    r: Result<u64, SampleSourceError>,
) -> bool {
    let chans = s.descriptor_spec().channel_format.channel_count();
    let n = exact_count(s, dest0.len() / chans);
    &&& r == Ok::<u64, SampleSourceError>(n as u64)
    &&& next.exact_spec()
    &&& next.audio_spec() == s.audio_spec()
    &&& next.position_spec() == s.position_spec() + n
    &&& dest1.subrange(0, (n * chans) as int) == s.audio_spec().subrange(
        (s.position_spec() * chans) as int,
        ((s.position_spec() + n) * chans) as int,
    )
}

} // verus!
