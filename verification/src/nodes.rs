use crate::error::{Error, ValidationError};
use crate::loop_spec::LoopSpec;
use crate::sample_source::{Descriptor, SeekSupport};
use crate::time_span::{samples_in_nanos, TimeSpan};
use vstd::prelude::*;

verus! {

/// Kinds of trigonometric waveform.
#[derive(Clone, Copy, Debug, PartialEq, Eq, Hash, Structural)]
pub enum TrigWaveformKind {
    Sin,
    Cos,
    Tan,
}

/// A command for a node, to be carried to the audio thread.
#[derive(Clone, Copy, Debug, PartialEq, Eq, Structural)]
pub enum NodeCommand {
    /// Apply a validated loop specification.
    SetLoopConfig(LoopSpec),
    /// Seek to a frame, in the sampling rate of the source.
    Seek(u64),
}

/// The user-facing side of a node playing a source of samples.
///
/// It validates requests against the source's [Descriptor] and produces the commands which the audio
/// thread carries out.
#[derive(Clone, Copy, Debug, PartialEq, Eq)]
pub struct SampleSourcePlayerNode {
    descriptor: Descriptor,
}

/// The outcome of seeking a source described by `d` to `new_pos`.
pub open spec fn seek_check(d: Descriptor, new_pos: u64) -> Result<NodeCommand, Error> {
    match d.seek_support {
        SeekSupport::Unsupported => Err(Error::Validation(ValidationError::SeekUnsupported)),
        SeekSupport::ToBeginning => if new_pos != 0 {
            Err(Error::Validation(ValidationError::SeekOnlyToBeginning))
        } else {
            Ok(NodeCommand::Seek(new_pos))
        },
        _ => match d.duration {
            Some(max) => if new_pos >= max {
                Err(Error::Validation(ValidationError::SeekPastEnd))
            } else {
                Ok(NodeCommand::Seek(new_pos))
            },
            None => Ok(NodeCommand::Seek(new_pos)),
        },
    }
}

impl SampleSourcePlayerNode {
    #[verifier::type_invariant]
    spec fn inv(self) -> bool {
        self.descriptor.duration != Some(0u64)
    }

    /// The descriptor of the source played.
    pub closed spec fn descriptor_view(self) -> Descriptor {
        self.descriptor
    }

    /// A player for a source described by `descriptor`.  Sources whose duration is 0 are refused.
    pub fn new(descriptor: Descriptor) -> (r: Result<Self, Error>)
        ensures
            descriptor.duration == Some(0u64) ==> r == Err::<Self, Error>(
                Error::Validation(ValidationError::ZeroDuration),
            ),
            descriptor.duration != Some(0u64) ==> (r matches Ok(n) && n.descriptor_view() == descriptor),
    {
        match descriptor.duration {
            Some(0) => Err(Error::Validation(ValidationError::ZeroDuration)),
            _ => Ok(SampleSourcePlayerNode { descriptor }),
        }
    }

    /// The descriptor of the source played.
    pub fn descriptor(&self) -> (r: &Descriptor)
        ensures
            *r == self.descriptor_view(),
    {
        &self.descriptor
    }

    /// Configure looping: the specification is validated against the source's sampling rate and duration,
    /// and on success becomes the command to send.
    pub fn config_looping(&self, specification: LoopSpec) -> (r: Result<NodeCommand, Error>)
        ensures
            match specification.validation(self.descriptor_view().sample_rate@, self.descriptor_view().duration) {
                Ok(()) => r == Ok::<NodeCommand, Error>(NodeCommand::SetLoopConfig(specification)),
                Err(e) => r == Err::<NodeCommand, Error>(Error::Loop(e)),
            },
    {
        proof {
            use_type_invariant(self);
        }
        let sr = self.descriptor.sample_rate.get();
        match specification.validate(sr, self.descriptor.duration) {
            Ok(()) => Ok(NodeCommand::SetLoopConfig(specification)),
            Err(e) => Err(Error::Loop(e)),
        }
    }

    /// Seek to a frame in the sampling rate of the source.  The position is checked against what the source
    /// supports; on success it becomes the command to send.
    pub fn seek_sample(&self, new_pos: u64) -> (r: Result<NodeCommand, Error>)
        ensures
            r == seek_check(self.descriptor_view(), new_pos),
    {
        match self.descriptor.seek_support {
            SeekSupport::Unsupported => Err(Error::Validation(ValidationError::SeekUnsupported)),
            SeekSupport::ToBeginning => {
                if new_pos != 0 {
                    Err(Error::Validation(ValidationError::SeekOnlyToBeginning))
                } else {
                    Ok(NodeCommand::Seek(new_pos))
                }
            },
            _ => {
                match self.descriptor.duration {
                    Some(max) => {
                        if new_pos >= max {
                            Err(Error::Validation(ValidationError::SeekPastEnd))
                        } else {
                            Ok(NodeCommand::Seek(new_pos))
                        }
                    },
                    None => Ok(NodeCommand::Seek(new_pos)),
                }
            },
        }
    }

    /// Seek to a time from the start of the source: the time is converted to a frame, rounding down, and
    /// then sought as by [Self::seek_sample].
    pub fn seek(&self, dur: TimeSpan) -> (r: Result<NodeCommand, Error>)
        ensures
            r == seek_check(self.descriptor_view(), samples_in_nanos(dur@, self.descriptor_view().sample_rate@)),
    {
        let samples = dur.to_samples_floor(self.descriptor.sample_rate.get());
        self.seek_sample(samples)
    }
}

/// An accepted seek asks for the very frame requested, and that frame is one the source can seek to: never
/// on a source that cannot seek, only frame 0 on one that seeks only to its beginning, and, on a source that
/// seeks anywhere, a frame below its duration when that is known.  On such a source every frame below the
/// duration (every frame, when it is unknown) is accepted.
pub proof fn lemma_accepted_seeks_land_inside(d: Descriptor, new_pos: u64)
    ensures
        seek_check(d, new_pos) is Ok ==> seek_check(d, new_pos) == Ok::<NodeCommand, Error>(NodeCommand::Seek(new_pos)),
        seek_check(d, new_pos) is Ok ==> d.seek_support != SeekSupport::Unsupported,
        seek_check(d, new_pos) is Ok && d.seek_support == SeekSupport::ToBeginning ==> new_pos == 0,
        (d.seek_support == SeekSupport::Imprecise || d.seek_support == SeekSupport::SampleAccurate) ==> (
        seek_check(d, new_pos) is Ok <==> (d.duration matches Some(n) ==> new_pos < n)),
        seek_check(d, new_pos) is Ok ==> (d.duration matches Some(n) ==> new_pos < n || new_pos == 0),
        d.seek_support == SeekSupport::Unsupported ==> seek_check(d, new_pos) == Err::<NodeCommand, Error>(
            Error::Validation(ValidationError::SeekUnsupported),
        ),
        d.seek_support == SeekSupport::ToBeginning ==> (seek_check(d, new_pos) is Ok <==> new_pos == 0),
        d.seek_support == SeekSupport::ToBeginning && new_pos != 0 ==> seek_check(d, new_pos) == Err::<
            NodeCommand,
            Error,
        >(Error::Validation(ValidationError::SeekOnlyToBeginning)),
        (d.seek_support == SeekSupport::Imprecise || d.seek_support == SeekSupport::SampleAccurate) && (
        d.duration matches Some(n) && new_pos >= n) ==> seek_check(d, new_pos) == Err::<NodeCommand, Error>(
            Error::Validation(ValidationError::SeekPastEnd),
        ),
{
}

} // verus!
