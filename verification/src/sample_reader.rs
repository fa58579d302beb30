use crate::sample_source::{exact_read, Descriptor, SampleSource, SampleSourceError};
use vstd::prelude::*;

verus! {

/// Where a [SampleSourceReader] is in the life of its source.
#[derive(Clone, Copy, Debug, PartialEq, Eq, Hash, Structural)]
pub enum SampleReaderState {
    /// Reads go to the source.
    Playing,
    /// The source came up short; reads produce nothing.
    AtEnd,
    /// The source failed or said it is done forever; reads produce nothing.
    DoneForever,
}

/// Reads from a source, tracking when it reaches its end or fails.  Does not loop, seek, buffer or resample.
pub struct SampleSourceReader<S: SampleSource> {
    source: S,
    descriptor: Descriptor,
    source_state: SampleReaderState,
}

impl<S: SampleSource> SampleSourceReader<S> {
    /// The reader's state.
    pub closed spec fn state(self) -> SampleReaderState {
        self.source_state
    }

    /// The source read from.
    pub closed spec fn source(self) -> S {
        self.source
    }

    /// The descriptor taken from the source when the reader was made.
    pub closed spec fn descriptor_view(self) -> Descriptor {
        self.descriptor
    }

    /// The descriptor agrees with the source.
    pub closed spec fn wf(self) -> bool {
        self.descriptor == self.source.descriptor_spec()
    }

    /// Wrap a source, which starts out playing.
    pub fn new(source: S) -> (r: Result<Self, SampleSourceError>)
        ensures
            r matches Ok(rd) && rd.wf() && rd.state() == SampleReaderState::Playing && rd.source() == source
                && rd.descriptor_view() == source.descriptor_spec(),
    {
        let descriptor = source.get_descriptor();
        Ok(SampleSourceReader { source, descriptor, source_state: SampleReaderState::Playing })
    }

    /// The descriptor of the source.
    pub fn descriptor(&self) -> (r: &Descriptor)
        ensures
            *r == self.descriptor_view(),
    {
        &self.descriptor
    }

    /// Write interleaved frames to `destination`, whose length must be a multiple of the channel count, and
    /// return how many frames were written.
    ///
    /// Nothing is read unless the reader is playing and the destination is not empty; then an exact source
    /// gives its next frames.  A short read moves the reader to the end (or done forever, if the source says so); an error moves it to done forever.
    pub fn read_samples(&mut self, destination: &mut [S::Sample]) -> (r: Result<u64, SampleSourceError>)
        requires
            old(self).wf(),
            old(destination)@.len() % old(self).descriptor_view().channel_format.channel_count() == 0,
        ensures
            final(self).wf(),
            final(self).descriptor_view() == old(self).descriptor_view(),
            ({
                let chans = old(self).descriptor_view().channel_format.channel_count();
                let wanted = old(destination)@.len() / chans;
                if old(destination)@.len() == 0 || old(self).state() != SampleReaderState::Playing {
                    &&& r == Ok::<u64, SampleSourceError>(0)
                    &&& *final(self) == *old(self)
                    &&& final(destination)@ == old(destination)@
                } else {
                    &&& old(self).source().exact_spec() ==> exact_read(
                        &old(self).source(),
                        &final(self).source(),
                        old(destination)@,
                        final(destination)@,
                        r,
                    )
                    &&& match r {
                        Ok(n) => {
                            &&& final(destination)@.subrange(n * chans, old(destination)@.len() as int)
                                == old(destination)@.subrange(n * chans, old(destination)@.len() as int)
                            &&& n <= wanted
                            &&& n == wanted ==> final(self).state() == SampleReaderState::Playing
                            &&& n < wanted ==> final(self).state() == (if final(self).source().finished_spec() {
                                SampleReaderState::DoneForever
                            } else {
                                SampleReaderState::AtEnd
                            })
                        },
                        Err(_) => final(self).state() == SampleReaderState::DoneForever,
                    }
                }
            }),
    {
        let chans = self.descriptor.get_channel_count();
        if destination.len() == 0 || self.source_state != SampleReaderState::Playing {
            return Ok(0);
        }
        let wanted_frames = (destination.len() / chans) as u64;
        let ghost len = destination@.len();
        proof {
            vstd::arithmetic::div_mod::lemma_fundamental_div_mod(destination@.len() as int, chans as int);
        }
        match self.source.read_samples(destination) {
            Ok(x) => {
                proof {
                    vstd::arithmetic::div_mod::lemma_div_is_ordered(
                        (x * chans) as int,
                        len as int,
                        chans as int,
                    );
                    vstd::arithmetic::div_mod::lemma_div_multiples_vanish(x as int, chans as int);
                    vstd::arithmetic::mul::lemma_mul_is_commutative(x as int, chans as int);
                }
                if x == wanted_frames {
                    Ok(x)
                } else {
                    self.source_state = if self.source.is_permanently_finished() {
                        SampleReaderState::DoneForever
                    } else {
                        SampleReaderState::AtEnd
                    };
                    Ok(x)
                }
            },
            Err(e) => {
                self.source_state = SampleReaderState::DoneForever;
                Err(e)
            },
        }
    }
}

} // verus!
