use crate::loop_driver::{LoopDriver, ReadOp};
use crate::loop_spec::{lemma_validated_loop_starts_inside, LoopSpec};
use crate::sample_source::{Descriptor, SampleSource, SampleSourceError};
use vstd::prelude::*;

verus! {

/// Where a [SourceReader] is in the life of its source.
#[derive(Clone, Copy, Debug, PartialEq, Eq, Hash, Structural)]
pub enum SourceState {
    /// The source is being driven by the loop driver.
    Playing,
    /// The source is at its end; nothing happens until the user acts.
    AtEof,
    /// The source failed or said it is done forever.
    DoneForever,
}

/// The most steps one read takes.  A source which yields nothing even right after being sent back to the
/// start of its loop would otherwise be asked again forever; after this many steps the read gives up and
/// reports no frames.
pub const MAX_READ_STEPS: u64 = 4;

/// Reads from a source, looping and seeking it as configured.  Does not buffer or resample.
pub struct SourceReader<S: SampleSource> {
    source: S,
    descriptor: Descriptor,
    source_state: SourceState,
    loop_driver: LoopDriver,
}

/// What at most `steps` more steps of a read of up to `wanted` frames do, when the source is exact, holds
/// `total` frames and stands where `driver` says: the driver afterwards, the frame the frames written start
/// at, and how many there are.  A step follows the driver: it reads what the driver allows and the source
/// has left, stopping once that is not nothing and otherwise noting the end; it seeks where the driver
/// says; or it stops at the end.
pub open spec fn tracked_read(driver: LoopDriver, total: nat, wanted: u64, steps: nat) -> (LoopDriver, nat, nat)
    decreases steps,
{
    if steps == 0 {
        (driver, 0, 0)
    } else {
        match driver.next_op(wanted) {
            ReadOp::Read(f) => {
                let left: nat = if driver.position() < total {
                    (total - driver.position()) as nat
                } else {
                    0
                };
                let got: nat = if f < left {
                    f as nat
                } else {
                    left
                };
                if got != 0 {
                    (driver.after_read(got as u64), driver.position() as nat, got)
                } else {
                    tracked_read(driver.after_eof(), total, wanted, (steps - 1) as nat)
                }
            },
            ReadOp::Seek(p) => tracked_read(driver.after_seek(p), total, wanted, (steps - 1) as nat),
            ReadOp::ReachedEof => (driver, 0, 0),
        }
    }
}

impl<S: SampleSource> SourceReader<S> {
    /// The reader's state.
    pub closed spec fn state(self) -> SourceState {
        self.source_state
    }

    /// The source read from.
    pub closed spec fn source(self) -> S {
        self.source
    }

    /// The descriptor taken from the source when the reader was made.
    pub closed spec fn descriptor_view(self) -> Descriptor {
        self.descriptor
    }

    /// The loop driver steering the source.
    pub closed spec fn driver(self) -> LoopDriver {
        self.loop_driver
    }

    /// The descriptor agrees with the source, the driver works at the source's rate, and a configured loop
    /// starts inside the audio when its length is known.
    pub closed spec fn wf(self) -> bool {
        &&& self.descriptor == self.source.descriptor_spec()
        &&& self.loop_driver.wf()
        &&& self.loop_driver.rate() == self.descriptor.sample_rate@
        &&& self.loop_driver.is_looping() ==> (self.descriptor.duration matches Some(d)
            ==> (self.loop_driver.start_frame() < d || self.loop_driver.start_frame() == 0))
    }

    /// The source is exact and stands where the driver says it does, so what a read writes is known.
    pub open spec fn tracks_source(self) -> bool {
        &&& self.source().exact_spec()
        &&& self.source().position_spec() == self.driver().position()
    }

    /// Frames the exact source holds.
    pub open spec fn source_frames(self) -> nat {
        self.source().audio_spec().len() / self.descriptor_view().channel_format.channel_count()
    }

    /// What a read into a destination of `len` samples does when the reader tracks its source: see
    /// [tracked_read].
    pub open spec fn tracked_outcome(self, len: nat) -> (LoopDriver, nat, nat) {
        tracked_read(self.driver(), self.source_frames(), self.frames_for(len) as u64, MAX_READ_STEPS as nat)
    }

    /// Frames requested by a destination of `len` samples.
    pub open spec fn frames_for(self, len: nat) -> nat {
        len / self.descriptor_view().channel_format.channel_count()
    }

    /// A read of `frames` frames cannot overflow the driver's position, from where it is or from the start
    /// of the loop.
    pub open spec fn has_room_for(self, frames: nat) -> bool {
        &&& self.driver().position() + frames <= u64::MAX
        &&& self.driver().start_frame() + frames <= u64::MAX
    }

    /// Wrap a source, which starts out playing and not looping.
    pub fn new(source: S) -> (r: Result<Self, SampleSourceError>)
        ensures
            r matches Ok(rd) && {
                &&& rd.wf()
                &&& rd.state() == SourceState::Playing
                &&& rd.source() == source
                &&& rd.descriptor_view() == source.descriptor_spec()
                &&& !rd.driver().is_looping()
                &&& !rd.driver().at_eof()
                &&& rd.driver().position() == 0
                &&& source.exact_spec() && source.position_spec() == 0 ==> rd.tracks_source()
            },
    {
        let descriptor = source.get_descriptor();
        let loop_driver = LoopDriver::new(descriptor.sample_rate.get());
        Ok(SourceReader { source, descriptor, source_state: SourceState::Playing, loop_driver })
    }

    /// The descriptor of the source.
    pub fn descriptor(&self) -> (r: &Descriptor)
        ensures
            *r == self.descriptor_view(),
    {
        &self.descriptor
    }

    /// `next`, `dest1` and `r` are a possible outcome of reading from this reader into `dest0`: see
    /// [SourceReader::read_samples].
    pub open spec fn read_result(
        self,
        next: Self,
        dest0: Seq<S::Sample>,
        dest1: Seq<S::Sample>,
        r: Result<u64, SampleSourceError>,
    ) -> bool {
        let chans = self.descriptor_view().channel_format.channel_count();
        &&& next.descriptor_view() == self.descriptor_view()
        &&& dest1.len() == dest0.len()
        &&& next.driver().start_point() == self.driver().start_point()
        &&& next.driver().end_point() == self.driver().end_point()
        &&& (dest0.len() == 0 || self.state() != SourceState::Playing) ==> {
            &&& r == Ok::<u64, SampleSourceError>(0)
            &&& next.driver() == self.driver()
            &&& dest1 == dest0
        }
        &&& r matches Ok(n) ==> n <= self.frames_for(dest0.len())
        &&& r matches Ok(n) ==> (n > 0 ==> (next.driver().position() == self.driver().position() + n
            || next.driver().position() == next.driver().start_frame() + n))
        &&& r matches Ok(n) ==> dest1.subrange(n * chans, dest0.len() as int) == dest0.subrange(
            n * chans,
            dest0.len() as int,
        )
        &&& (r == Ok::<u64, SampleSourceError>(0) && dest0.len() > 0 && self.state() == SourceState::Playing) ==> {
            ||| next.driver().at_eof() && !next.driver().is_looping()
            ||| next.driver().is_looping() && (next.driver().at_eof() || next.driver().position()
                == next.driver().start_frame())
        }
        &&& self.tracks_source() ==> {
            &&& next.tracks_source()
            &&& next.source().audio_spec() == self.source().audio_spec()
        }
        &&& (self.tracks_source() && self.state() == SourceState::Playing && dest0.len() > 0) ==> {
            let (d, start, n) = self.tracked_outcome(dest0.len());
            &&& r == Ok::<u64, SampleSourceError>(n as u64)
            &&& next.driver() == d
            &&& dest1.subrange(0, (n * chans) as int) == self.source().audio_spec().subrange(
                (start * chans) as int,
                ((start + n) * chans) as int,
            )
        }
        &&& next.state() == (if r is Err || next.source().finished_spec() {
            SourceState::DoneForever
        } else if r == Ok::<u64, SampleSourceError>(0) && self.state() != SourceState::DoneForever {
            SourceState::AtEof
        } else {
            self.state()
        })
    }

    /// Write interleaved frames to `destination`, whose length must be a multiple of the channel count, and
    /// return how many frames were written.
    ///
    /// Returns 0 only at the end of the source, for an empty destination, or when not playing, and may
    /// return fewer frames than asked, particularly at a loop point.  An error leaves the reader done
    /// forever, as does a source which says it is permanently finished; reading nothing leaves a playing
    /// reader at its end.  When the source is exact and stands where the driver says, the count, the frames
    /// written and the driver afterwards are those of [tracked_read]: the source's frames from where the read
    /// started, which is the driver's position or, after wrapping, the start of the loop.
    pub fn read_samples(&mut self, destination: &mut [S::Sample]) -> (r: Result<u64, SampleSourceError>)
        requires
            old(self).wf(),
            old(destination)@.len() % old(self).descriptor_view().channel_format.channel_count() == 0,
            old(self).has_room_for(old(self).frames_for(old(destination)@.len())),
        ensures
            final(self).wf(),
            old(self).read_result(*final(self), old(destination)@, final(destination)@, r),
    {
        let res = self.read_samples_impl(destination);
        match res {
            Err(e) => {
                self.source_state = SourceState::DoneForever;
                Err(e)
            },
            Ok(got) => {
                if self.source.is_permanently_finished() {
                    self.source_state = SourceState::DoneForever;
                } else if got == 0 && self.source_state != SourceState::DoneForever {
                    self.source_state = SourceState::AtEof;
                }
                Ok(got)
            },
        }
    }

    /// The reading itself: follow the loop driver, seeking and reading, until some frames come back or the
    /// source is at its end.
    fn read_samples_impl(&mut self, destination: &mut [S::Sample]) -> (r: Result<u64, SampleSourceError>)
        requires
            old(self).wf(),
            old(destination)@.len() % old(self).descriptor_view().channel_format.channel_count() == 0,
            old(self).has_room_for(old(self).frames_for(old(destination)@.len())),
        ensures
            final(self).wf(),
            final(self).descriptor_view() == old(self).descriptor_view(),
            final(destination)@.len() == old(destination)@.len(),
            final(self).state() == old(self).state(),
            final(self).driver().start_point() == old(self).driver().start_point(),
            final(self).driver().end_point() == old(self).driver().end_point(),
            (old(destination)@.len() == 0 || old(self).state() != SourceState::Playing) ==> {
                &&& r == Ok::<u64, SampleSourceError>(0)
                &&& *final(self) == *old(self)
                &&& final(destination)@ == old(destination)@
            },
            r matches Ok(n) ==> n <= old(self).frames_for(old(destination)@.len()),
            r matches Ok(n) ==> (n > 0 ==> (final(self).driver().position() == old(self).driver().position() + n
                || final(self).driver().position() == final(self).driver().start_frame() + n)),
            final(self).driver().is_looping() ==> old(self).driver().is_looping(),
            r matches Ok(n) ==> final(destination)@.subrange(
                n * old(self).descriptor_view().channel_format.channel_count(),
                old(destination)@.len() as int,
            ) == old(destination)@.subrange(
                n * old(self).descriptor_view().channel_format.channel_count(),
                old(destination)@.len() as int,
            ),
            (r == Ok::<u64, SampleSourceError>(0) && old(destination)@.len() > 0 && old(self).state()
                == SourceState::Playing) ==> {
                ||| final(self).driver().at_eof() && !final(self).driver().is_looping()
                ||| final(self).driver().is_looping() && (final(self).driver().at_eof()
                    || final(self).driver().position() == final(self).driver().start_frame())
            },
            old(self).tracks_source() ==> {
                &&& final(self).tracks_source()
                &&& final(self).source().audio_spec() == old(self).source().audio_spec()
            },
            (old(self).tracks_source() && old(self).state() == SourceState::Playing && old(destination)@.len()
                > 0) ==> {
                let chans = old(self).descriptor_view().channel_format.channel_count();
                let (d, start, n) = old(self).tracked_outcome(old(destination)@.len());
                &&& r == Ok::<u64, SampleSourceError>(n as u64)
                &&& final(self).driver() == d
                &&& final(destination)@.subrange(0, (n * chans) as int) == old(self).source().audio_spec().subrange(
                    (start * chans) as int,
                    ((start + n) * chans) as int,
                )
            },
    {
        let chans = self.descriptor.get_channel_count();
        if destination.len() == 0 || self.source_state != SourceState::Playing {
            return Ok(0);
        }
        let ghost len = destination@.len();
        let wanted_frames = (destination.len() / chans) as u64;
        proof {
            vstd::arithmetic::div_mod::lemma_fundamental_div_mod(len as int, chans as int);
            vstd::arithmetic::mul::lemma_mul_is_commutative(chans as int, wanted_frames as int);
        }
        let ghost old_pos = self.loop_driver.position();
        let ghost trk = old(self).tracks_source();
        let ghost total = old(self).source_frames();
        let ghost outcome = old(self).tracked_outcome(len);
        let mut steps: u64 = 0;
        while steps < MAX_READ_STEPS
            invariant
                self.wf(),
                self.descriptor == old(self).descriptor,
                self.source_state == old(self).source_state,
                self.loop_driver.start_point() == old(self).loop_driver.start_point(),
                self.loop_driver.end_point() == old(self).loop_driver.end_point(),
                self.loop_driver.position() == old_pos || self.loop_driver.position()
                    == self.loop_driver.start_frame(),
                old_pos == old(self).loop_driver.position(),
                old_pos + wanted_frames <= u64::MAX,
                self.loop_driver.start_frame() + wanted_frames <= u64::MAX,
                chans == self.descriptor.channel_format.channel_count(),
                chans > 0,
                wanted_frames * chans == len,
                wanted_frames == len / (chans as nat),
                destination@.len() == len,
                len <= usize::MAX,
                len > 0,
                len == old(destination)@.len(),
                old(self).source_state == SourceState::Playing,
                steps <= MAX_READ_STEPS,
                self.loop_driver.is_looping() ==> old(self).loop_driver.is_looping(),
                steps > 0 ==> (self.loop_driver.at_eof() || self.loop_driver.position()
                    == self.loop_driver.start_frame()),
                steps > 0 && !self.loop_driver.is_looping() ==> self.loop_driver.at_eof(),
                destination@ == old(destination)@,
                trk == old(self).tracks_source(),
                outcome == old(self).tracked_outcome(len),
                trk ==> self.tracks_source(),
                trk ==> self.source.audio_spec() == old(self).source.audio_spec(),
                total == old(self).source.audio_spec().len() / (chans as nat),
                outcome == tracked_read(old(self).loop_driver, total, wanted_frames, MAX_READ_STEPS as nat),
                trk ==> tracked_read(self.loop_driver, total, wanted_frames, (MAX_READ_STEPS - steps) as nat)
                    == outcome,
            decreases MAX_READ_STEPS - steps,
        {
            let ghost drv0 = self.loop_driver;
            let ghost src0 = self.source;
            let ghost rem: nat = (MAX_READ_STEPS - steps) as nat;
            let op = self.loop_driver.pre_read(wanted_frames);
            proof {
                assert(rem > 0);
                assert(tracked_read(drv0, total, wanted_frames, rem) == match op {
                    ReadOp::Read(f) => {
                        let left: nat = if drv0.position() < total {
                            (total - drv0.position()) as nat
                        } else {
                            0
                        };
                        let got: nat = if f < left {
                            f as nat
                        } else {
                            left
                        };
                        if got != 0 {
                            (drv0.after_read(got as u64), drv0.position() as nat, got)
                        } else {
                            tracked_read(drv0.after_eof(), total, wanted_frames, (rem - 1) as nat)
                        }
                    },
                    ReadOp::Seek(p) => tracked_read(drv0.after_seek(p), total, wanted_frames, (rem - 1) as nat),
                    ReadOp::ReachedEof => (drv0, 0nat, 0nat),
                });
            }
            match op {
                ReadOp::Read(f) => {
                    proof {
                        vstd::arithmetic::mul::lemma_mul_inequality(f as int, wanted_frames as int, chans as int);
                        vstd::arithmetic::div_mod::lemma_mod_multiples_basic(f as int, chans as int);
                    }
                    let ghost before = destination@;
                    let ghost fc: int = f as int * chans as int;
                    let (head, tail) = destination.split_at_mut(f as usize * chans);
                    let got = match self.source.read_samples(head) {
                        Ok(g) => g,
                        Err(e) => {
                            return Err(e);
                        },
                    };
                    let ghost head_after = head@;
                    let ghost tail_after = tail@;
                    proof {
                        assert(destination@ == head_after + tail_after);
                        assert(tail_after == before.subrange(fc, len as int));
                        let gc: int = got as int * chans as int;
                        assert(destination@.subrange(gc, len as int) =~= head_after.subrange(gc, fc) + tail_after);
                        assert(before.subrange(gc, len as int) =~= before.subrange(0, fc).subrange(gc, fc)
                            + before.subrange(fc, len as int));
                        if got == 0 {
                            assert(head_after.len() == fc);
                            let cc = self.source.descriptor_spec().channel_format.channel_count();
                            assert(got * cc == 0) by (nonlinear_arith)
                                requires
                                    got == 0,
                            ;
                            assert(head_after.subrange(0, fc) == before.subrange(0, fc).subrange(0, fc));
                            assert(head_after =~= head_after.subrange(0, fc));
                            assert(before.subrange(0, fc) =~= before.subrange(0, fc).subrange(0, fc));
                            assert(destination@ =~= before);
                        }
                        if got > f {
                            vstd::arithmetic::mul::lemma_mul_strict_inequality(
                                f as int,
                                got as int,
                                chans as int,
                            );
                        }
                        if trk {
                            vstd::arithmetic::div_mod::lemma_div_multiples_vanish(f as int, chans as int);
                            vstd::arithmetic::mul::lemma_mul_is_commutative(f as int, chans as int);
                            assert(head_after.len() == fc);
                            assert(fc / (chans as int) == f);
                            assert(destination@.subrange(0, gc) =~= head_after.subrange(0, gc));
                        }
                    }
                    if got != 0 {
                        self.loop_driver.observe_read(got);
                        return Ok(got);
                    } else {
                        self.loop_driver.observe_eof();
                    }
                },
                ReadOp::Seek(p) => {
                    match self.source.seek(p) {
                        Ok(()) => {},
                        Err(e) => {
                            return Err(e);
                        },
                    }
                    self.loop_driver.observe_seek(p);
                },
                ReadOp::ReachedEof => {
                    return Ok(0);
                },
            }
            steps = steps + 1;
        }
        Ok(0)
    }

    /// Move back to playing if, and only if, at the end.  A source that is done forever stays done.
    pub fn become_playing_if_eof(&mut self)
        ensures
            final(self).state() == (if old(self).state() == SourceState::AtEof {
                SourceState::Playing
            } else {
                old(self).state()
            }),
            final(self).source() == old(self).source(),
            final(self).descriptor_view() == old(self).descriptor_view(),
            final(self).driver() == old(self).driver(),
            old(self).wf() ==> final(self).wf(),
    {
        if self.source_state == SourceState::AtEof {
            self.source_state = SourceState::Playing;
        }
    }

    /// Apply a loop specification, which must already have been validated against this source's sampling
    /// rate and duration.
    pub fn config_looping(&mut self, spec: LoopSpec)
        requires
            old(self).wf(),
            spec.validation(old(self).descriptor_view().sample_rate@, old(self).descriptor_view().duration) is Ok,
        ensures
            final(self).wf(),
            final(self).state() == old(self).state(),
            final(self).source() == old(self).source(),
            final(self).descriptor_view() == old(self).descriptor_view(),
            final(self).driver().position() == old(self).driver().position(),
            final(self).driver().at_eof() == old(self).driver().at_eof(),
            match spec.endpoints(old(self).descriptor_view().sample_rate@) {
                None => !final(self).driver().is_looping(),
                Some((s, e)) => {
                    &&& final(self).driver().is_looping()
                    &&& final(self).driver().start_point() == s
                    &&& final(self).driver().end_point() == e
                },
            },
    {
        let sr = self.descriptor.sample_rate.get();
        let r = self.loop_driver.config_looping(spec);
        proof {
            match spec.endpoints(sr) {
                Some((crate::loop_spec::LoopPointInSamples::Sample(st), _)) => {
                    match self.descriptor.duration {
                        Some(d) => {
                            if d > 0 {
                                lemma_validated_loop_starts_inside(spec, sr, d, st);
                            } else {
                                crate::loop_spec::lemma_empty_source_loops_from_start(spec, sr, st);
                            }
                        },
                        None => {},
                    }
                },
                _ => {},
            }
        }
    }

    /// Seek to `new_pos`, capped at the last frame of the source when its length is known (frame 0 when it has
    /// no frames).  An error leaves the reader done forever.
    pub fn seek(&mut self, new_pos: u64) -> (r: Result<(), SampleSourceError>)
        requires
            old(self).wf(),
        ensures
            final(self).wf(),
            final(self).descriptor_view() == old(self).descriptor_view(),
            ({
                let target = match old(self).descriptor_view().duration {
                    Some(d) => if d == 0 { 0 } else if new_pos < d - 1 { new_pos } else { (d - 1) as u64 },
                    None => new_pos,
                };
                match r {
                    Ok(()) => {
                        &&& final(self).driver() == old(self).driver().after_seek(target)
                        &&& final(self).state() == old(self).state()
                    },
                    Err(_) => final(self).state() == SourceState::DoneForever,
                }
            }),
            old(self).tracks_source() ==> {
                &&& r is Ok
                &&& final(self).tracks_source()
                &&& final(self).source().audio_spec() == old(self).source().audio_spec()
            },
    {
        let new_pos = match self.descriptor.duration {
            Some(d) => {
                let last = if d == 0 { 0 } else { d - 1 };
                if new_pos < last {
                    new_pos
                } else {
                    last
                }
            },
            None => new_pos,
        };
        match self.source.seek(new_pos) {
            Ok(()) => {},
            Err(e) => {
                self.source_state = SourceState::DoneForever;
                return Err(e);
            },
        }
        self.loop_driver.observe_seek(new_pos);
        Ok(())
    }
}

/// A reader that is done forever stays so: every later read returns no frames and changes neither the
/// destination nor the loop driver.
pub proof fn lemma_done_reader_stays_done<S: SampleSource>(
    r0: SourceReader<S>,
    r1: SourceReader<S>,
    d0: Seq<S::Sample>,
    d1: Seq<S::Sample>,
    res: Result<u64, SampleSourceError>,
)
    requires
        r0.state() == SourceState::DoneForever,
        r0.read_result(r1, d0, d1, res),
    ensures
        res == Ok::<u64, SampleSourceError>(0),
        r1.state() == SourceState::DoneForever,
        d1 == d0,
        r1.driver() == r0.driver(),
{
}

/// Once a read fails, the reader stays done forever through any run of later reads: each returns no frames
/// and leaves its destination as it was.
pub proof fn lemma_nothing_after_failure<S: SampleSource>(
    rs: Seq<SourceReader<S>>,
    d0: Seq<Seq<S::Sample>>,
    d1: Seq<Seq<S::Sample>>,
    res: Seq<Result<u64, SampleSourceError>>,
    f: int,
)
    requires
        rs.len() == res.len() + 1,
        d0.len() == res.len(),
        d1.len() == res.len(),
        forall|i: int| 0 <= i < res.len() ==> #[trigger] rs[i].read_result(rs[i + 1], d0[i], d1[i], res[i]),
        0 <= f < res.len(),
        res[f] is Err,
    ensures
        forall|i: int| f < i <= res.len() ==> #[trigger] rs[i].state() == SourceState::DoneForever,
        forall|i: int| f < i < res.len() ==> #[trigger] res[i] == Ok::<u64, SampleSourceError>(0),
        forall|i: int| f < i < res.len() ==> #[trigger] d1[i] == d0[i],
{
    assert forall|i: int| f < i <= res.len() implies #[trigger] rs[i].state() == SourceState::DoneForever by {
        lemma_done_from(rs, d0, d1, res, f, i);
    }
    assert forall|i: int| f < i < res.len() implies #[trigger] res[i] == Ok::<u64, SampleSourceError>(0) by {
        lemma_done_from(rs, d0, d1, res, f, i);
        lemma_done_reader_stays_done(rs[i], rs[i + 1], d0[i], d1[i], res[i]);
    }
    assert forall|i: int| f < i < res.len() implies #[trigger] d1[i] == d0[i] by {
        lemma_done_from(rs, d0, d1, res, f, i);
        lemma_done_reader_stays_done(rs[i], rs[i + 1], d0[i], d1[i], res[i]);
    }
}

proof fn lemma_done_from<S: SampleSource>(
    rs: Seq<SourceReader<S>>,
    d0: Seq<Seq<S::Sample>>,
    d1: Seq<Seq<S::Sample>>,
    res: Seq<Result<u64, SampleSourceError>>,
    f: int,
    i: int,
)
    requires
        rs.len() == res.len() + 1,
        d0.len() == res.len(),
        d1.len() == res.len(),
        forall|j: int| 0 <= j < res.len() ==> #[trigger] rs[j].read_result(rs[j + 1], d0[j], d1[j], res[j]),
        0 <= f < res.len(),
        res[f] is Err,
        f < i <= res.len(),
    ensures
        rs[i].state() == SourceState::DoneForever,
    decreases i - f,
{
    if i == f + 1 {
        assert(rs[f].read_result(rs[f + 1], d0[f], d1[f], res[f]));
    } else {
        let j = i - 1;
        lemma_done_from(rs, d0, d1, res, f, j);
        assert(rs[j].read_result(rs[j + 1], d0[j], d1[j], res[j]));
        lemma_done_reader_stays_done(rs[j], rs[j + 1], d0[j], d1[j], res[j]);
    }
}

} // verus!
