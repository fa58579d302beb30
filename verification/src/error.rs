use crate::loop_spec::LoopSpecError;
use crate::resampling::ResamplingError;
use crate::sample_source::SampleSourceError;
use vstd::prelude::*;

verus! {

/// Requests refused because they do not make sense for the object they are made of.
#[derive(Clone, Copy, Debug, PartialEq, Eq, Hash, Structural)]
pub enum ValidationError {
    /// Sources whose duration is 0 cannot be played.
    ZeroDuration,
    /// The source cannot seek.
    SeekUnsupported,
    /// The source can only seek to its beginning.
    SeekOnlyToBeginning,
    /// The position is past the end of the source.
    SeekPastEnd,
}

/// Errors of the library.
#[derive(Clone, Debug, PartialEq, Eq)]
pub enum Error {
    /// A request was refused; see [ValidationError].
    Validation(ValidationError),
    /// A loop specification was refused.
    Loop(LoopSpecError),
    /// A source of samples failed.
    Source(SampleSourceError),
    /// Resampling failed.
    Resampling(ResamplingError),
}

impl Error {
    /// Whether this error is a refused loop specification.
    pub fn is_invalid_loop(&self) -> (r: bool)
        ensures
            r == (*self is Loop),
    {
        match self {
            Error::Loop(_) => true,
            _ => false,
        }
    }
}

} // verus!
