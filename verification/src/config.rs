use vstd::prelude::*;

verus! {

/// Number of frames in one block of audio.
pub const BLOCK_SIZE: usize = 128;

/// The largest channel count supported anywhere in the library.
pub const MAX_CHANNELS: usize = 16;

/// The sampling rate of the library, in frames per second.
pub const SR: u64 = 44100;

} // verus!
