use crate::channel_format::ChannelFormat;
use crate::nonzero::NonZeroRate;
use crate::sample_source::{
    Descriptor, Latency, MissingSetting, SampleSource, SampleSourceError, SeekSupport,
};
use vstd::prelude::*;

verus! {

/// Builds a [VecSource].  Both the channel format and the sample rate are required.
#[derive(Clone, Copy, Debug)]
pub struct VecSourceBuilder {
    channel_format: Option<ChannelFormat>,
    sample_rate: Option<NonZeroRate>,
}

/// A source of samples wrapping a vector of interleaved samples.
pub struct VecSource<T> {
    data: Vec<T>,
    channel_format: ChannelFormat,
    sample_rate: NonZeroRate,
    position_in_frames: usize,
    frame_count: usize,
}

impl Default for VecSourceBuilder {
    /// A builder with nothing set.
    fn default() -> (r: Self)
        ensures
            r.channel_format_setting() is None,
            r.sample_rate_setting() is None,
    {
        VecSourceBuilder { channel_format: None, sample_rate: None }
    }
}

impl VecSourceBuilder {
    /// The channel format set so far.
    pub closed spec fn channel_format_setting(self) -> Option<ChannelFormat> {
        self.channel_format
    }

    /// The sample rate set so far.
    pub closed spec fn sample_rate_setting(self) -> Option<NonZeroRate> {
        self.sample_rate
    }

    /// Set the channel format of the source.  Required.
    pub fn set_channel_format(self, channel_format: ChannelFormat) -> (r: Self)
        ensures
            r.channel_format_setting() == Some(channel_format),
            r.sample_rate_setting() == self.sample_rate_setting(),
    {
        VecSourceBuilder { channel_format: Some(channel_format), ..self }
    }

    /// Set the sample rate of the source.  Required.
    pub fn set_sample_rate(self, sample_rate: NonZeroRate) -> (r: Self)
        ensures
            r.sample_rate_setting() == Some(sample_rate),
            r.channel_format_setting() == self.channel_format_setting(),
    {
        VecSourceBuilder { sample_rate: Some(sample_rate), ..self }
    }

    /// Build the source over interleaved `data`.
    ///
    /// Errors if a required setting is missing, or if `data` does not hold a whole number of frames.
    pub fn build_with_data<T: Copy>(self, data: Vec<T>) -> (r: Result<VecSource<T>, SampleSourceError>)
        ensures
            match (self.channel_format_setting(), self.sample_rate_setting()) {
                (None, _) => r == Err::<VecSource<T>, SampleSourceError>(
                    SampleSourceError::Missing(MissingSetting::ChannelFormat),
                ),
                (Some(_), None) => r == Err::<VecSource<T>, SampleSourceError>(
                    SampleSourceError::Missing(MissingSetting::SampleRate),
                ),
                (Some(cf), Some(sr)) => if data@.len() % cf.channel_count() != 0 {
                    r == Err::<VecSource<T>, SampleSourceError>(SampleSourceError::PartialFrame)
                } else {
                    r matches Ok(s) && s.samples() == data@ && s.position() == 0 && s.descriptor_spec() == (
                    Descriptor {
                        sample_rate: sr,
                        duration: Some((data@.len() / cf.channel_count()) as u64),
                        channel_format: cf,
                        seek_support: SeekSupport::SampleAccurate,
                        latency: Latency::AudioThreadSafe,
                    })
                },
            },
    {
        let channel_format = match self.channel_format {
            Some(c) => c,
            None => {
                return Err(SampleSourceError::Missing(MissingSetting::ChannelFormat));
            },
        };
        let sample_rate = match self.sample_rate {
            Some(s) => s,
            None => {
                return Err(SampleSourceError::Missing(MissingSetting::SampleRate));
            },
        };
        let chans = channel_format.channels();
        if data.len() % chans != 0 {
            return Err(SampleSourceError::PartialFrame);
        }
        let frame_count = data.len() / chans;
        proof {
            vstd::arithmetic::div_mod::lemma_fundamental_div_mod(data@.len() as int, chans as int);
            vstd::arithmetic::mul::lemma_mul_is_commutative(chans as int, frame_count as int);
        }
        Ok(VecSource { frame_count, channel_format, data, sample_rate, position_in_frames: 0 })
    }
}

impl<T> VecSource<T> {
    #[verifier::type_invariant]
    spec fn inv(self) -> bool {
        &&& self.data@.len() == self.frame_count * self.channel_format.channel_count()
        &&& self.position_in_frames <= self.frame_count
    }

    /// The interleaved samples held.
    pub closed spec fn samples(self) -> Seq<T> {
        self.data@
    }

    /// The current position, in frames.
    pub closed spec fn position(self) -> nat {
        self.position_in_frames as nat
    }

    /// A builder for a source.
    pub fn builder() -> (r: VecSourceBuilder)
        ensures
            r.channel_format_setting() is None,
            r.sample_rate_setting() is None,
    {
        VecSourceBuilder::default()
    }
}

impl<T: Copy> SampleSource for VecSource<T> {
    type Sample = T;

    closed spec fn descriptor_spec(&self) -> Descriptor {
        Descriptor {
            sample_rate: self.sample_rate,
            duration: Some(self.frame_count as u64),
            channel_format: self.channel_format,
            seek_support: SeekSupport::SampleAccurate,
            latency: Latency::AudioThreadSafe,
        }
    }

    open spec fn finished_spec(&self) -> bool {
        false
    }

    open spec fn exact_spec(&self) -> bool {
        true
    }

    open spec fn audio_spec(&self) -> Seq<T> {
        self.samples()
    }

    open spec fn position_spec(&self) -> nat {
        self.position()
    }

    fn get_descriptor(&self) -> (r: Descriptor) {
        Descriptor {
            channel_format: self.channel_format,
            duration: Some(self.frame_count as u64),
            sample_rate: self.sample_rate,
            seek_support: SeekSupport::SampleAccurate,
            latency: Latency::AudioThreadSafe,
        }
    }

    fn seek(&mut self, position_in_frames: u64) -> (r: Result<(), SampleSourceError>)
        ensures
            r is Ok,
            final(self).position() == position_in_frames,
            final(self).samples() == old(self).samples(),
    {
        proof {
            use_type_invariant(&*self);
        }
        self.position_in_frames = position_in_frames as usize;
        Ok(())
    }

    fn read_samples(&mut self, destination: &mut [T]) -> (r: Result<u64, SampleSourceError>)
        ensures
            final(self).samples() == old(self).samples(),
            ({
                let chans = old(self).descriptor_spec().channel_format.channel_count();
                let avail: int = old(self).descriptor_spec().duration->0 - old(self).position();
                let wanted: int = (old(destination)@.len() / chans) as int;
                let n: int = if avail < wanted { avail } else { wanted };
                let start: int = (old(self).position() * chans) as int;
                &&& r == Ok::<u64, SampleSourceError>(n as u64)
                &&& final(self).position() == old(self).position() + n
                &&& final(destination)@ == old(self).samples().subrange(start, start + n * chans)
                    + old(destination)@.subrange(n * chans, old(destination)@.len() as int)
            }),
    {
        proof {
            use_type_invariant(&*self);
        }
        let chans = self.channel_format.channels();
        let wanted_frames = destination.len() / chans;
        let available_frames = self.frame_count - self.position_in_frames;
        let will_do = if available_frames < wanted_frames {
            available_frames
        } else {
            wanted_frames
        };
        proof {
            vstd::arithmetic::div_mod::lemma_fundamental_div_mod(destination@.len() as int, chans as int);
            vstd::arithmetic::mul::lemma_mul_inequality(will_do as int, wanted_frames as int, chans as int);
            vstd::arithmetic::mul::lemma_mul_inequality(
                (self.position_in_frames + will_do) as int,
                self.frame_count as int,
                chans as int,
            );
            vstd::arithmetic::mul::lemma_mul_is_distributive_add_other_way(
                chans as int,
                self.position_in_frames as int,
                will_do as int,
            );
            vstd::arithmetic::mul::lemma_mul_is_commutative(chans as int, wanted_frames as int);
            vstd::arithmetic::mul::lemma_mul_inequality(
                self.position_in_frames as int,
                self.frame_count as int,
                chans as int,
            );
            vstd::arithmetic::mul::lemma_mul_is_commutative(chans as int, self.position_in_frames as int);
        }
        let count = will_do * chans;
        let data_len = self.data.len();
        assert(self.position_in_frames * chans <= data_len);
        let pos_in_samples = chans * self.position_in_frames;
        let mut i: usize = 0;
        while i < count
            invariant
                count == will_do * chans,
                pos_in_samples == self.position_in_frames * chans,
                pos_in_samples + count <= self.data@.len(),
                data_len == self.data@.len(),
                count <= destination@.len(),
                i <= count,
                destination@.len() == old(destination)@.len(),
                forall|k: int|
                    0 <= k < i ==> destination@[k] == self.data@[pos_in_samples + k],
                forall|k: int| i <= k < destination@.len() ==> destination@[k] == old(destination)@[k],
            decreases count - i,
        {
            destination[i] = self.data[pos_in_samples + i];
            i = i + 1;
        }
        proof {
            assert(destination@ =~= self.data@.subrange(
                pos_in_samples as int,
                pos_in_samples + count,
            ) + old(destination)@.subrange(count as int, old(destination)@.len() as int));
        }
        proof {
            vstd::arithmetic::div_mod::lemma_div_multiples_vanish(self.frame_count as int, chans as int);
            vstd::arithmetic::mul::lemma_mul_is_commutative(self.frame_count as int, chans as int);
            assert(destination@.subrange(0, count as int) =~= self.data@.subrange(
                pos_in_samples as int,
                pos_in_samples + count,
            ));
        }
        self.position_in_frames = self.position_in_frames + will_do;
        Ok(will_do as u64)
    }

    fn is_permanently_finished(&self) -> (r: bool) {
        false
    }
}

} // verus!
