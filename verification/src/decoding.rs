//! The decisions of decoding a compressed stream: which track to decode and how to describe it, and how
//! decoded packets, one plane per channel, are read out as interleaved frames.
use crate::channel_format::{channel_format_from_report, format_from_report, ChannelFormat, DecodedLayout};
use crate::nonzero::NonZeroRate;
use vstd::arithmetic::div_mod::lemma_fundamental_div_mod_converse;
use vstd::arithmetic::mul::lemma_mul_inequality;
use vstd::prelude::*;

verus! {

/// What a container reports about one of its tracks.
#[derive(Clone, Copy, Debug, PartialEq, Eq, Structural)]
pub struct TrackReport {
    /// Whether some codec can decode the track.
    pub decodable: bool,
    /// The channel layout, if reported as a standard one.
    pub layout: Option<DecodedLayout>,
    /// The channels present, one bit each, if reported.
    pub channel_mask: Option<u32>,
    /// The sampling rate, if reported.
    pub sample_rate: Option<u32>,
    /// The length in frames, if reported.
    pub frames: Option<u64>,
}

/// Why a stream cannot be decoded.
#[derive(Clone, Copy, Debug, PartialEq, Eq, Structural)]
pub enum StreamSetupError {
    /// The format was recognized, but has no decodable audio tracks.
    NoDecodableTrack,
    /// The first decodable track has no channel format the library handles.
    UnsupportedChannelFormat,
    /// The first packet of the stream says its sampling rate is zero.
    ZeroSampleRate,
}

/// How to decode a stream.
#[derive(Clone, Copy, Debug, PartialEq, Eq)]
pub struct StreamPlan {
    /// The track to decode.
    pub track_index: usize,
    /// Its channel format.
    pub channel_format: ChannelFormat,
    /// Its sampling rate; `None` when the container does not say, and the first packet must be decoded to learn it.
    pub sample_rate: Option<NonZeroRate>,
    /// Its length in frames, when the container says.
    pub duration: Option<u64>,
}

/// The index of the first track from `start` on that can be decoded.
pub open spec fn first_decodable_from(tracks: Seq<TrackReport>, start: int) -> Option<int>
    decreases tracks.len() - start,
{
    if start < 0 || start >= tracks.len() {
        None
    } else if tracks[start].decodable {
        Some(start)
    } else {
        first_decodable_from(tracks, start + 1)
    }
}

/// The index of the first track that can be decoded.
pub open spec fn first_decodable(tracks: Seq<TrackReport>) -> Option<int> {
    first_decodable_from(tracks, 0)
}

/// Decide how to decode a stream from what its container reports: the first decodable track, described by its
/// channel format, its sampling rate when reported (and not zero) and its length when reported.
pub fn plan_stream(tracks: &Vec<TrackReport>) -> (r: Result<StreamPlan, StreamSetupError>)
    ensures
        match first_decodable(tracks@) {
            None => r == Err::<StreamPlan, StreamSetupError>(StreamSetupError::NoDecodableTrack),
            Some(i) => {
                let t = tracks@[i];
                match format_from_report(t.layout, t.channel_mask) {
                    None => r == Err::<StreamPlan, StreamSetupError>(StreamSetupError::UnsupportedChannelFormat),
                    Some(n) => r matches Ok(plan) && {
                        &&& plan.track_index == i
                        &&& plan.channel_format.channel_count() == n
                        &&& (n == 1 <==> plan.channel_format == ChannelFormat::Mono)
                        &&& (n == 2 <==> plan.channel_format == ChannelFormat::Stereo)
                        &&& plan.duration == t.frames
                        &&& match t.sample_rate {
                            Some(rate) => if rate == 0 {
                                plan.sample_rate is None
                            } else {
                                plan.sample_rate matches Some(sr) && sr@ == rate
                            },
                            None => plan.sample_rate is None,
                        }
                    },
                }
            },
        },
{
    let mut i: usize = 0;
    while i < tracks.len()
        invariant
            i <= tracks.len(),
            first_decodable(tracks@) == first_decodable_from(tracks@, i as int),
        decreases tracks.len() - i,
    {
        if tracks[i].decodable {
            let t = tracks[i];
            let format = match channel_format_from_report(t.layout, t.channel_mask) {
                Some(f) => f,
                None => {
                    return Err(StreamSetupError::UnsupportedChannelFormat);
                },
            };
            let sample_rate = match t.sample_rate {
                Some(rate) => NonZeroRate::new(rate as u64),
                None => None,
            };
            return Ok(StreamPlan { track_index: i, channel_format: format, sample_rate, duration: t.frames });
        }
        i = i + 1;
    }
    Err(StreamSetupError::NoDecodableTrack)
}

/// The sampling rate learned from the first decoded packet; a rate of zero means the stream is corrupt.
pub fn rate_from_first_packet(rate: u32) -> (r: Result<NonZeroRate, StreamSetupError>)
    ensures
        rate == 0 <==> r == Err::<NonZeroRate, StreamSetupError>(StreamSetupError::ZeroSampleRate),
        r matches Ok(sr) ==> sr@ == rate,
{
    match NonZeroRate::new(rate as u64) {
        Some(sr) => Ok(sr),
        None => Err(StreamSetupError::ZeroSampleRate),
    }
}

proof fn lemma_frame_index(f: int, c: int, channels: int, frames: int)
    requires
        0 <= c < channels,
        0 <= f < frames,
    ensures
        0 <= f * channels + c < frames * channels,
        f * channels <= f * channels + c,
        (f * channels + c) / channels == f,
        (f * channels + c) % channels == c,
        (f + 1) * channels == f * channels + channels,
{
    lemma_fundamental_div_mod_converse(f * channels + c, channels, f, c);
    lemma_mul_inequality(f + 1, frames, channels);
    assert((f + 1) * channels == f * channels + channels) by (nonlinear_arith);
    assert(0 <= f * channels) by (nonlinear_arith)
        requires
            0 <= f,
            0 <= c,
            c < channels,
    ;
}

/// A decoded packet: one plane of samples per channel, read out frame by frame.
pub struct PlanarBuffer<T> {
    planes: Vec<Vec<T>>,
    frames: usize,
    read_frames: usize,
}

impl<T: Copy> PlanarBuffer<T> {
    /// The planes, one per channel.
    pub closed spec fn planes_view(self) -> Seq<Seq<T>> {
        self.planes@.map_values(|p: Vec<T>| p@)
    }

    /// Frames in the packet.
    pub closed spec fn frame_count(self) -> nat {
        self.frames as nat
    }

    /// Frames already read out.
    pub closed spec fn read_count(self) -> nat {
        self.read_frames as nat
    }

    /// Every plane holds the packet's frames, and no more than those have been read.
    pub open spec fn wf(self) -> bool {
        &&& self.planes_view().len() > 0
        &&& forall|c: int| 0 <= c < self.planes_view().len() ==> #[trigger] self.planes_view()[c].len() >= self.frame_count()
        &&& self.read_count() <= self.frame_count()
    }

    /// An empty buffer for `channels` channels.
    pub fn new(channels: usize) -> (r: Self)
        requires
            channels > 0,
        ensures
            r.wf(),
            r.planes_view().len() == channels,
            r.frame_count() == 0,
            r.read_count() == 0,
    {
        let mut planes: Vec<Vec<T>> = Vec::new();
        let mut c: usize = 0;
        while c < channels
            invariant
                c <= channels,
                planes@.len() == c,
            decreases channels - c,
        {
            planes.push(Vec::new());
            c = c + 1;
        }
        PlanarBuffer { planes, frames: 0, read_frames: 0 }
    }

    /// Replace the contents with a newly decoded packet of `frames` frames, none read yet.
    pub fn refill(&mut self, planes: Vec<Vec<T>>, frames: usize)
        requires
            planes@.len() > 0,
            forall|c: int| 0 <= c < planes@.len() ==> #[trigger] planes@[c]@.len() >= frames,
        ensures
            final(self).wf(),
            final(self).planes_view() == planes@.map_values(|p: Vec<T>| p@),
            final(self).frame_count() == frames,
            final(self).read_count() == 0,
    {
        self.planes = planes;
        self.frames = frames;
        self.read_frames = 0;
    }

    /// Frames not yet read.
    pub fn available(&self) -> (r: usize)
        requires
            self.wf(),
        ensures
            r == self.frame_count() - self.read_count(),
    {
        self.frames - self.read_frames
    }

    /// Whether every frame has been read.
    pub fn is_exhausted(&self) -> (r: bool)
        ensures
            r == (self.read_count() == self.frame_count()),
    {
        self.read_frames == self.frames
    }

    /// Mark up to `n` more frames as read without reading them.
    pub fn skip(&mut self, n: usize) -> (skipped: usize)
        requires
            old(self).wf(),
        ensures
            final(self).wf(),
            skipped == if n < old(self).frame_count() - old(self).read_count() {
                n as int
            } else {
                old(self).frame_count() - old(self).read_count()
            },
            final(self).read_count() == old(self).read_count() + skipped,
            final(self).planes_view() == old(self).planes_view(),
            final(self).frame_count() == old(self).frame_count(),
    {
        let avail = self.frames - self.read_frames;
        let skipped = if n < avail {
            n
        } else {
            avail
        };
        self.read_frames = self.read_frames + skipped;
        skipped
    }

    /// Read frames into interleaved `dest`, which holds `dest.len() / channels` frames, starting at frame
    /// `next_frame`: as many as remain in the packet and fit.  Returns the frame of `dest` after the last one
    /// written.
    pub fn read_into(&mut self, dest: &mut [T], next_frame: usize) -> (r: usize)
        requires
            old(self).wf(),
            next_frame * old(self).planes_view().len() <= old(dest)@.len(),
        ensures
            final(self).wf(),
            final(self).planes_view() == old(self).planes_view(),
            final(self).frame_count() == old(self).frame_count(),
            final(dest)@.len() == old(dest)@.len(),
            ({
                let ch = old(self).planes_view().len() as int;
                let total = old(dest)@.len() as int / ch;
                let avail = old(self).frame_count() - old(self).read_count();
                let n = if avail < total - next_frame {
                    avail
                } else {
                    total - next_frame
                };
                &&& r == next_frame + n
                &&& final(self).read_count() == old(self).read_count() + n
                &&& forall|k: int|
                    #![trigger final(dest)@[k]]
                    0 <= k < final(dest)@.len() ==> final(dest)@[k] == if next_frame * ch <= k < r * ch {
                        old(self).planes_view()[k % ch][old(self).read_count() + k / ch - next_frame]
                    } else {
                        old(dest)@[k]
                    }
            }),
    {
        let channels = self.planes.len();
        let dlen = dest.len();
        let total = dlen / channels;
        proof {
            let len = dest@.len() as int;
            let ch = channels as int;
            vstd::arithmetic::div_mod::lemma_fundamental_div_mod(len, ch);
            let q = len / ch;
            let m = len % ch;
            assert(q == total);
            assert(next_frame <= total) by (nonlinear_arith)
                requires
                    next_frame * ch <= len,
                    len == ch * q + m,
                    0 <= m,
                    m < ch,
                    ch > 0,
                    q == total,
            ;
            assert(total * ch <= len) by (nonlinear_arith)
                requires
                    len == ch * q + m,
                    0 <= m,
                    q == total,
            ;
        }
        let avail = self.frames - self.read_frames;
        let n = if avail < total - next_frame {
            avail
        } else {
            total - next_frame
        };
        let ghost planes = self.planes_view();
        let start = self.read_frames;
        let mut f: usize = 0;
        while f < n
            invariant
                channels == planes.len(),
                channels > 0,
                planes == self.planes_view(),
                self.wf(),
                self.read_frames == start,
                start + n <= self.frames,
                next_frame + n <= total,
                total * channels <= dest@.len(),
                dlen == dest@.len(),
                f <= n,
                dest@.len() == old(dest)@.len(),
                forall|k: int|
                    #![trigger dest@[k]]
                    0 <= k < dest@.len() ==> dest@[k] == if next_frame * channels <= k < (next_frame + f)
                        * channels {
                        planes[k % (channels as int)][start + k / (channels as int) - next_frame]
                    } else {
                        old(dest)@[k]
                    },
            decreases n - f,
        {
            let mut c: usize = 0;
            proof {
                lemma_frame_index((next_frame + f) as int, 0, channels as int, total as int);
                assert(next_frame * channels <= (next_frame + f) * channels) by (nonlinear_arith)
                    requires
                        channels > 0,
                ;
            }
            while c < channels
                invariant
                    channels == planes.len(),
                    channels > 0,
                    planes == self.planes_view(),
                    self.wf(),
                    self.read_frames == start,
                    start + n <= self.frames,
                    next_frame + n <= total,
                    total * channels <= dest@.len(),
                    dlen == dest@.len(),
                    f < n,
                    c <= channels,
                    dest@.len() == old(dest)@.len(),
                    (next_frame + f + 1) * channels == (next_frame + f) * channels + channels,
                    next_frame * channels <= (next_frame + f) * channels,
                    forall|k: int|
                        #![trigger dest@[k]]
                        0 <= k < dest@.len() ==> dest@[k] == if next_frame * channels <= k < (next_frame + f)
                            * channels + c {
                            planes[k % (channels as int)][start + k / (channels as int) - next_frame]
                        } else {
                            old(dest)@[k]
                        },
                decreases channels - c,
            {
                proof {
                    lemma_frame_index((next_frame + f) as int, c as int, channels as int, total as int);
                    assert(planes[c as int].len() >= self.frames);
                    assert(self.planes@[c as int]@ == planes[c as int]);
                    assert((next_frame + f) * channels + c < total * channels);
                    assert((next_frame + f) * channels + c < dest@.len());
                }
                let v = self.planes[c][start + f];
                dest[(next_frame + f) * channels + c] = v;
                c = c + 1;
            }
            f = f + 1;
        }
        self.read_frames = start + n;
        next_frame + n
    }
}

} // verus!
