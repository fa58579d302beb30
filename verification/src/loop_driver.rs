use crate::loop_spec::{point_lt, LoopPointInSamples, LoopSpec, LoopSpecError};
use vstd::prelude::*;

verus! {

/// What the caller of a [LoopDriver] must do next.
#[derive(Clone, Copy, Debug, PartialEq, Eq, Hash, Structural)]
pub enum ReadOp {
    /// Read up to this many frames.
    Read(u64),
    /// Seek the source to this frame.
    Seek(u64),
    /// The source is at its end and nothing more will be read.
    ReachedEof,
}

/// A computation engine for loops in the streaming case.
///
/// The driver tells its caller when to seek and when to read, and how much to read.  It infers the
/// position of the underlying source from what the caller reports having done, and constrains what the
/// caller may do next so that loops happen.  Loop endpoints are inclusive.
#[derive(Clone, Copy, Debug, PartialEq, Eq, Structural)]
pub struct LoopDriver {
    /// The predicted position of the underlying source.
    predicted_position: u64,
    /// Whether a loop is configured.
    looping: bool,
    /// Whether the source has been observed at its end.
    eof: bool,
    /// Start of the loop; `Sample(0)` when not looping.
    loop_start: LoopPointInSamples,
    /// Inclusive end of the loop; `End` when not looping.
    loop_end: LoopPointInSamples,
    /// Sampling rate of the source, used to convert loop specifications.
    sr: u64,
}

impl LoopDriver {
    /// Predicted position of the source, in frames.
    pub closed spec fn position(self) -> u64 {
        self.predicted_position
    }

    /// Whether the driver is looping.
    pub closed spec fn is_looping(self) -> bool {
        self.looping
    }

    /// Whether the driver has observed the end of the source since the last seek.
    pub closed spec fn at_eof(self) -> bool {
        self.eof
    }

    /// The loop's start point.
    pub closed spec fn start_point(self) -> LoopPointInSamples {
        self.loop_start
    }

    /// The loop's inclusive end point.
    pub closed spec fn end_point(self) -> LoopPointInSamples {
        self.loop_end
    }

    /// The sampling rate of the source.
    pub closed spec fn rate(self) -> u64 {
        self.sr
    }

    /// The loop start is a sample, and a configured loop starts strictly before it ends.
    pub open spec fn wf(self) -> bool {
        &&& self.start_point() is Sample
        &&& self.is_looping() ==> point_lt(self.start_point(), self.end_point())
    }

    /// The loop start, as a frame index.
    pub open spec fn start_frame(self) -> u64 {
        match self.start_point() {
            LoopPointInSamples::Sample(x) => x,
            LoopPointInSamples::End => 0,
        }
    }

    /// What the driver tells a caller who wishes to read up to `frames` frames.
    pub open spec fn next_op(self, frames: u64) -> ReadOp {
        if !self.is_looping() {
            if self.at_eof() {
                ReadOp::ReachedEof
            } else {
                ReadOp::Read(frames)
            }
        } else if self.at_eof() {
            ReadOp::Seek(self.start_frame())
        } else {
            match self.end_point() {
                LoopPointInSamples::End => ReadOp::Read(frames),
                LoopPointInSamples::Sample(e) => {
                    let avail: int = if self.position() > e {
                        0
                    } else {
                        e - self.position() + 1
                    };
                    let clamped: int = if frames < avail {
                        frames as int
                    } else {
                        avail
                    };
                    if clamped == 0 {
                        ReadOp::Seek(self.start_frame())
                    } else {
                        ReadOp::Read(clamped as u64)
                    }
                },
            }
        }
    }

    /// The driver after observing a seek to `new_pos`.
    pub closed spec fn after_seek(self, new_pos: u64) -> LoopDriver {
        LoopDriver { predicted_position: new_pos, eof: false, ..self }
    }

    /// The driver after observing a read of `amount` frames.
    pub closed spec fn after_read(self, amount: u64) -> LoopDriver {
        LoopDriver { predicted_position: (self.predicted_position + amount) as u64, ..self }
    }

    /// The driver after observing the end of the source.
    pub closed spec fn after_eof(self) -> LoopDriver {
        LoopDriver {
            eof: true,
            looping: self.looping && !(self.predicted_position < self.start_frame()),
            ..self
        }
    }

    /// Create a driver which does not loop.
    pub fn new(sr: u64) -> (r: Self)
        ensures
            r.wf(),
            r.position() == 0,
            !r.is_looping(),
            !r.at_eof(),
            r.start_point() == LoopPointInSamples::Sample(0),
            r.end_point() == LoopPointInSamples::End,
            r.rate() == sr,
    {
        Self {
            predicted_position: 0,
            looping: false,
            eof: false,
            loop_start: LoopPointInSamples::Sample(0),
            loop_end: LoopPointInSamples::End,
            sr,
        }
    }

    /// Predicted position of the underlying source, in frames.
    pub fn predicted_position(&self) -> (r: u64)
        ensures
            r == self.position(),
    {
        self.predicted_position
    }

    /// Configure this driver with a loop specification, in the sampling rate of the source.
    ///
    /// On error the driver is unchanged.
    pub fn config_looping(&mut self, config: LoopSpec) -> (r: Result<(), LoopSpecError>)
        requires
            old(self).wf(),
        ensures
            final(self).wf(),
            final(self).position() == old(self).position(),
            final(self).at_eof() == old(self).at_eof(),
            final(self).rate() == old(self).rate(),
            match config.endpoints_checked(old(self).rate()) {
                Err(e) => r == Err::<(), LoopSpecError>(e) && *final(self) == *old(self),
                Ok(None) => {
                    &&& r is Ok
                    &&& !final(self).is_looping()
                    &&& final(self).start_point() == LoopPointInSamples::Sample(0)
                    &&& final(self).end_point() == LoopPointInSamples::End
                },
                Ok(Some((s, e))) => {
                    &&& r is Ok
                    &&& final(self).is_looping()
                    &&& final(self).start_point() == s
                    &&& final(self).end_point() == e
                },
            },
    {
        match config.get_endpoints_samples(self.sr) {
            Err(e) => Err(e),
            Ok(None) => {
                self.looping = false;
                self.loop_start = LoopPointInSamples::Sample(0);
                self.loop_end = LoopPointInSamples::End;
                Ok(())
            },
            Ok(Some((start, end))) => {
                self.loop_start = start;
                self.loop_end = end;
                self.looping = true;
                Ok(())
            },
        }
    }

    /// Tell the driver that the caller wishes to read up to `frames` frames, and learn what to do instead.
    pub fn pre_read(&mut self, frames: u64) -> (r: ReadOp)
        requires
            old(self).wf(),
        ensures
            *final(self) == *old(self),
            r == old(self).next_op(frames),
    {
        if !self.looping {
            if self.eof {
                return ReadOp::ReachedEof;
            } else {
                return ReadOp::Read(frames);
            }
        }
        if self.eof {
            return ReadOp::Seek(self.loop_start_in_samples());
        }
        match self.loop_end {
            LoopPointInSamples::End => ReadOp::Read(frames),
            LoopPointInSamples::Sample(wanted_end) => {
                // `wanted_end` is inclusive, so `wanted_end - position + 1` frames remain.
                let clamped = if self.predicted_position > wanted_end {
                    0
                } else if frames <= wanted_end - self.predicted_position {
                    frames
                } else {
                    wanted_end - self.predicted_position + 1
                };
                if clamped == 0 {
                    ReadOp::Seek(self.loop_start_in_samples())
                } else {
                    ReadOp::Read(clamped)
                }
            },
        }
    }

    /// The loop's start point as a frame index.
    fn loop_start_in_samples(&self) -> (r: u64)
        requires
            self.wf(),
        ensures
            r == self.start_frame(),
    {
        match self.loop_start {
            LoopPointInSamples::Sample(x) => x,
            LoopPointInSamples::End => 0,
        }
    }

    /// Observe the end of the source.
    ///
    /// If the predicted position is before the loop start, looping stops: a loop from the end back to the end
    /// cannot be performed.
    pub fn observe_eof(&mut self)
        requires
            old(self).wf(),
        ensures
            *final(self) == old(self).after_eof(),
            final(self).wf(),
            final(self).position() == old(self).position(),
            final(self).at_eof(),
            final(self).is_looping() == (old(self).is_looping() && old(self).position()
                >= old(self).start_frame()),
            final(self).start_point() == old(self).start_point(),
            final(self).end_point() == old(self).end_point(),
            final(self).rate() == old(self).rate(),
    {
        self.eof = true;
        if self.predicted_position < self.loop_start_in_samples() {
            self.looping = false;
        }
    }

    /// Observe a seek, which moves the predicted position to `new_pos` and clears the end of the source.
    pub fn observe_seek(&mut self, new_pos: u64)
        requires
            old(self).wf(),
        ensures
            *final(self) == old(self).after_seek(new_pos),
            final(self).wf(),
            final(self).position() == new_pos,
            !final(self).at_eof(),
            final(self).is_looping() == old(self).is_looping(),
            final(self).start_point() == old(self).start_point(),
            final(self).end_point() == old(self).end_point(),
            final(self).rate() == old(self).rate(),
    {
        self.predicted_position = new_pos;
        self.eof = false;
    }

    /// Observe a read of `amount` frames, which must not be more than a [ReadOp] allowed.
    pub fn observe_read(&mut self, amount: u64)
        requires
            old(self).wf(),
            old(self).position() + amount <= u64::MAX,
        ensures
            *final(self) == old(self).after_read(amount),
            final(self).wf(),
            final(self).position() == old(self).position() + amount,
            final(self).at_eof() == old(self).at_eof(),
            final(self).is_looping() == old(self).is_looping(),
            final(self).start_point() == old(self).start_point(),
            final(self).end_point() == old(self).end_point(),
            final(self).rate() == old(self).rate(),
    {
        self.predicted_position = self.predicted_position + amount;
    }
}

/// A driver never lets its caller read more frames than the caller asked for.
pub proof fn lemma_read_within_request(d: LoopDriver, frames: u64)
    requires
        d.wf(),
    ensures
        d.next_op(frames) matches ReadOp::Read(n) ==> n <= frames,
{
}

/// While looping towards a sample end point, a read never passes the inclusive end of the loop, and is
/// never empty.
pub proof fn lemma_read_within_loop(d: LoopDriver, frames: u64, end: u64)
    requires
        d.wf(),
        d.is_looping(),
        d.end_point() == LoopPointInSamples::Sample(end),
    ensures
        d.next_op(frames) matches ReadOp::Read(n) ==> d.position() + n <= end + 1 && n >= 1,
{
}

/// Seeks are only ever requested while looping, and always go to the start of the loop.
pub proof fn lemma_seek_only_to_loop_start(d: LoopDriver, frames: u64)
    requires
        d.wf(),
    ensures
        d.next_op(frames) matches ReadOp::Seek(p) ==> d.is_looping() && p == d.start_frame(),
{
}

/// Without a loop, a driver at the end of its source reports the end, and a seek anywhere makes the whole
/// request readable again.
pub proof fn lemma_seek_undoes_eof(d: LoopDriver, frames: u64, new_pos: u64)
    requires
        d.wf(),
        !d.is_looping(),
    ensures
        d.at_eof() ==> d.next_op(frames) == ReadOp::ReachedEof,
        d.after_seek(new_pos).next_op(frames) == ReadOp::Read(frames),
{
}

/// While looping, the end of the source sends the caller back to the start of the loop, as long as the
/// source ended at or after that start.
pub proof fn lemma_eof_restarts_loop(d: LoopDriver, frames: u64)
    requires
        d.wf(),
        d.is_looping(),
        d.position() >= d.start_frame(),
    ensures
        d.after_eof().next_op(frames) == ReadOp::Seek(d.start_frame()),
{
}

/// A loop that starts after the end of the source never seeks: once the source ends before reaching the
/// loop, the driver reports the end from then on.
pub proof fn lemma_loop_past_end_stops(d: LoopDriver, frames: u64)
    requires
        d.wf(),
        d.is_looping(),
        d.position() < d.start_frame(),
    ensures
        d.after_eof().next_op(frames) == ReadOp::ReachedEof,
        !d.after_eof().is_looping(),
{
}

/// After seeking to the start of a loop, the driver asks for a read of at least one frame (for a request of
/// at least one frame), never another seek.
pub proof fn lemma_loop_restart_reads(d: LoopDriver, frames: u64)
    requires
        d.wf(),
        d.is_looping(),
        frames >= 1,
    ensures
        d.after_seek(d.start_frame()).next_op(frames) matches ReadOp::Read(n) && n >= 1,
{
}

/// Reading a loop with a sample end point one frame at a time: every position up to the inclusive end
/// yields a one-frame read, and the position just past the end yields a seek to the start of the loop.
pub proof fn lemma_loop_cycle(d: LoopDriver, end: u64)
    requires
        d.wf(),
        d.is_looping(),
        !d.at_eof(),
        d.end_point() == LoopPointInSamples::Sample(end),
    ensures
        d.position() <= end ==> d.next_op(1) == ReadOp::Read(1),
        d.position() == end + 1 ==> d.next_op(1) == ReadOp::Seek(d.start_frame()),
{
}

/// What a seek changes: it moves the position and clears the end of the source.
pub broadcast proof fn lemma_after_seek(d: LoopDriver, new_pos: u64)
    ensures
        (#[trigger] d.after_seek(new_pos)).position() == new_pos,
        !d.after_seek(new_pos).at_eof(),
        d.after_seek(new_pos).is_looping() == d.is_looping(),
        d.after_seek(new_pos).start_point() == d.start_point(),
        d.after_seek(new_pos).end_point() == d.end_point(),
        d.after_seek(new_pos).rate() == d.rate(),
{
}

/// What a read changes: it advances the position.
pub broadcast proof fn lemma_after_read(d: LoopDriver, amount: u64)
    ensures
        (#[trigger] d.after_read(amount)).position() == (d.position() + amount) as u64,
        d.after_read(amount).at_eof() == d.at_eof(),
        d.after_read(amount).is_looping() == d.is_looping(),
        d.after_read(amount).start_point() == d.start_point(),
        d.after_read(amount).end_point() == d.end_point(),
        d.after_read(amount).rate() == d.rate(),
{
}

/// What the end of the source changes: it sets the end, and stops a loop that the source ended before.
pub broadcast proof fn lemma_after_eof(d: LoopDriver)
    ensures
        (#[trigger] d.after_eof()).position() == d.position(),
        d.after_eof().at_eof(),
        d.after_eof().is_looping() == (d.is_looping() && d.position() >= d.start_frame()),
        d.after_eof().start_point() == d.start_point(),
        d.after_eof().end_point() == d.end_point(),
        d.after_eof().rate() == d.rate(),
{
}

/// The observations a driver makes, in terms of what can be seen of it.
pub broadcast group group_observations {
    lemma_after_seek,
    lemma_after_read,
    lemma_after_eof,
}

} // verus!
