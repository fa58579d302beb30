use crate::time_span::{samples_in_nanos, TimeSpan};
use vstd::prelude::*;

verus! {

/// What a [LoopSpec] asks for.
#[allow(inconsistent_fields)]
#[derive(Clone, Copy, Debug, PartialEq, Eq, Hash, Structural)]
pub enum LoopSpecKind {
    /// No looping.
    Off,
    /// Loop over the whole audio.
    All,
    /// Loop over samples, endpoints inclusive; `end` of `None` means the end of the audio.
    Samples { start: u64, end: Option<u64> },
    /// Loop over times relative to the start, endpoints inclusive; `end` of `None` means the end of the audio.
    Timestamps { start: TimeSpan, end: Option<TimeSpan> },
}

/// Specification of a loop.
///
/// - None, built with [LoopSpec::none]: no looping.
/// - All, built with [LoopSpec::all]: loop over the entire audio, start to finish.
/// - Samples, built with [LoopSpec::samples]: loop over a subslice of the audio, endpoints inclusive.
/// - Timestamps, built with [LoopSpec::timestamps]: loop between times measured from the beginning of the
///   audio, endpoints inclusive.
///
/// Where a node cannot interpolate, timestamp loops are rounded down to the nearest sample.  A loop that
/// would be empty, or whose end comes before its start, is an error at the point of use, not when built.
///
/// The `Default` value is the same as no looping.
#[derive(Clone, Copy, Debug, PartialEq, Eq, Hash, Structural)]
pub struct LoopSpec {
    kind: LoopSpecKind,
    allow_rounding: bool,
}

/// Reasons a loop specification is refused.
#[derive(Clone, Copy, Debug, PartialEq, Eq, Structural)]
pub enum LoopSpecError {
    /// The loop would contain no audio; holds the specification and the sampling rate.
    EmptyLoop(LoopSpec, u64),
    /// The loop ends before it begins; holds the specification and the sampling rate.
    EndBeforeBeginning(LoopSpec, u64),
    /// The loop starts after the end of the audio.
    StartAfterEof,
    /// The loop ends after the end of the audio.
    EndAfterEof,
}

/// A loop endpoint in samples.  `End` is after every sample.
#[derive(Clone, Copy, Debug, PartialEq, Eq, Hash, Structural)]
pub enum LoopPointInSamples {
    Sample(u64),
    End,
}

/// Strict order on loop points: samples by index, and every sample before `End`.
pub open spec fn point_lt(a: LoopPointInSamples, b: LoopPointInSamples) -> bool {
    match (a, b) {
        (LoopPointInSamples::Sample(x), LoopPointInSamples::Sample(y)) => x < y,
        (LoopPointInSamples::Sample(_), LoopPointInSamples::End) => true,
        _ => false,
    }
}

impl LoopPointInSamples {
    /// Is this point strictly before `other`?
    pub fn is_before(&self, other: &LoopPointInSamples) -> (r: bool)
        ensures
            r == point_lt(*self, *other),
    {
        match (self, other) {
            (LoopPointInSamples::Sample(x), LoopPointInSamples::Sample(y)) => *x < *y,
            (LoopPointInSamples::Sample(_), LoopPointInSamples::End) => true,
            _ => false,
        }
    }
}

/// The loop point for an optional sample endpoint.
pub open spec fn end_point(end: Option<u64>) -> LoopPointInSamples {
    match end {
        Some(e) => LoopPointInSamples::Sample(e),
        None => LoopPointInSamples::End,
    }
}

/// Total nanoseconds of an audio of `dur` samples at `sr` samples per second: the whole seconds exactly,
/// and the remaining fraction of a second rounded up to the next nanosecond.
pub open spec fn duration_nanos(dur: u64, sr: u64) -> nat {
    let secs = dur / sr;
    let rem = dur % sr;
    secs as nat * 1_000_000_000 + ((rem as nat * 1_000_000_000 + sr - 1) / (sr as int)) as nat
}

impl LoopSpec {
    /// The kind of loop requested.
    pub closed spec fn loop_kind(self) -> LoopSpecKind {
        self.kind
    }

    /// Whether rounding of timestamps is allowed.
    pub closed spec fn rounding_allowed(self) -> bool {
        self.allow_rounding
    }

    /// The kind after rounding timestamps down to samples at `sr`.
    pub open spec fn rounded_kind(self, sr: u64) -> LoopSpecKind {
        match self.loop_kind() {
            LoopSpecKind::Timestamps { start, end } => LoopSpecKind::Samples {
                start: samples_in_nanos(start@, sr),
                end: match end {
                    Some(e) => Some(samples_in_nanos(e@, sr)),
                    None => None,
                },
            },
            k => k,
        }
    }

    /// The start and end points in samples at `sr`, if looping at all.
    pub open spec fn endpoints(self, sr: u64) -> Option<(LoopPointInSamples, LoopPointInSamples)> {
        match self.rounded_kind(sr) {
            LoopSpecKind::All => Some((LoopPointInSamples::Sample(0), LoopPointInSamples::End)),
            LoopSpecKind::Samples { start, end } => Some((LoopPointInSamples::Sample(start), end_point(end))),
            _ => None,
        }
    }

    /// The endpoints, or the error when the loop is empty or backwards.
    pub open spec fn endpoints_checked(self, sr: u64) -> Result<
        Option<(LoopPointInSamples, LoopPointInSamples)>,
        LoopSpecError,
    > {
        match self.endpoints(sr) {
            Some((a, b)) => if a == b {
                Err(LoopSpecError::EmptyLoop(self, sr))
            } else if point_lt(b, a) {
                Err(LoopSpecError::EndBeforeBeginning(self, sr))
            } else {
                Ok(Some((a, b)))
            },
            None => Ok(None),
        }
    }

    /// The outcome of validating against a sampling rate and a duration in samples, if known.  Endpoints are
    /// inclusive, so a sample endpoint must be a sample of the audio: below the duration.
    pub open spec fn validation(self, sr: u64, duration_in_samples: Option<u64>) -> Result<(), LoopSpecError> {
        match self.endpoints_checked(sr) {
            Err(e) => Err(e),
            Ok(_) => match duration_in_samples {
                None => Ok(()),
                Some(dur) => match self.loop_kind() {
                    LoopSpecKind::Samples { start, end } => {
                        let e = match end {
                            Some(x) => x,
                            None => 0,
                        };
                        if start >= dur - 1 {
                            Err(LoopSpecError::StartAfterEof)
                        } else if e >= dur {
                            Err(LoopSpecError::EndAfterEof)
                        } else {
                            Ok(())
                        }
                    },
                    LoopSpecKind::Timestamps { start, end } => {
                        let got = duration_nanos(dur, sr);
                        let e: nat = match end {
                            Some(x) => x@,
                            None => 0,
                        };
                        if start@ >= got {
                            Err(LoopSpecError::StartAfterEof)
                        } else if e >= got {
                            Err(LoopSpecError::EndAfterEof)
                        } else {
                            Ok(())
                        }
                    },
                    _ => Ok(()),
                },
            },
        }
    }

    /// What this specification asks for.
    pub fn kind(&self) -> (r: LoopSpecKind)
        ensures
            r == self.loop_kind(),
    {
        self.kind
    }

    /// Whether timestamp loops may be rounded off.
    pub fn is_rounding_allowed(&self) -> (r: bool)
        ensures
            r == self.rounding_allowed(),
    {
        self.allow_rounding
    }

    /// Don't loop at all.
    pub fn none() -> (r: Self)
        ensures
            r.loop_kind() == LoopSpecKind::Off,
            !r.rounding_allowed(),
    {
        Self { kind: LoopSpecKind::Off, allow_rounding: false }
    }

    /// Loop over the whole audio, start to finish.
    pub fn all() -> (r: Self)
        ensures
            r.loop_kind() == LoopSpecKind::All,
            !r.rounding_allowed(),
    {
        Self { kind: LoopSpecKind::All, allow_rounding: false }
    }

    /// Loop over the specified samples of the backing audio, in its own sampling rate.  An `end` of `None`
    /// loops to the end of the audio.
    pub fn samples(start: u64, end: Option<u64>) -> (r: Self)
        ensures
            r.loop_kind() == (LoopSpecKind::Samples { start, end }),
            !r.rounding_allowed(),
    {
        Self { kind: LoopSpecKind::Samples { start, end }, allow_rounding: false }
    }

    /// Loop over the specified times from the start of the audio.  An `end` of `None` loops to the end of the
    /// audio.
    pub fn timestamps(start: TimeSpan, end: Option<TimeSpan>) -> (r: Self)
        ensures
            r.loop_kind() == (LoopSpecKind::Timestamps { start, end }),
            !r.rounding_allowed(),
    {
        Self { kind: LoopSpecKind::Timestamps { start, end }, allow_rounding: false }
    }

    /// This specification, allowing timestamp loops to be rounded off.
    pub fn allow_rounding(self) -> (r: Self)
        ensures
            r.loop_kind() == self.loop_kind(),
            r.rounding_allowed(),
    {
        let mut s = self;
        s.allow_rounding = true;
        s
    }

    /// This specification with timestamps rounded down to samples at `sr`; rounding is then no longer allowed.
    pub fn force_round_off(self, sr: u64) -> (r: Self)
        ensures
            r.loop_kind() == self.rounded_kind(sr),
            !r.rounding_allowed(),
    {
        let new_kind = match self.kind {
            LoopSpecKind::Timestamps { start, end } => {
                let start_sr = start.to_samples_floor(sr);
                let end_sr = match end {
                    Some(e) => Some(e.to_samples_floor(sr)),
                    None => None,
                };
                LoopSpecKind::Samples { start: start_sr, end: end_sr }
            },
            k => k,
        };
        Self { kind: new_kind, allow_rounding: false }
    }

    /// This loop's start and end in samples at `sr`, if it loops at all.
    ///
    /// Errors if the loop is empty or ends before it starts.
    pub fn get_endpoints_samples(&self, sr: u64) -> (r: Result<
        Option<(LoopPointInSamples, LoopPointInSamples)>,
        LoopSpecError,
    >)
        ensures
            r == self.endpoints_checked(sr),
    {
        let rounded = self.force_round_off(sr);
        let ret = match rounded.kind {
            LoopSpecKind::All => Some((LoopPointInSamples::Sample(0), LoopPointInSamples::End)),
            LoopSpecKind::Samples { start, end } => {
                let e = match end {
                    Some(x) => LoopPointInSamples::Sample(x),
                    None => LoopPointInSamples::End,
                };
                Some((LoopPointInSamples::Sample(start), e))
            },
            _ => None,
        };
        match ret {
            Some((x, y)) => {
                if x == y {
                    Err(LoopSpecError::EmptyLoop(*self, sr))
                } else if y.is_before(&x) {
                    Err(LoopSpecError::EndBeforeBeginning(*self, sr))
                } else {
                    Ok(ret)
                }
            },
            None => Ok(ret),
        }
    }

    /// Validate this specification against a sampling rate and, if known, a duration in samples.
    pub fn validate(&self, sr: u64, duration_in_samples: Option<u64>) -> (r: Result<(), LoopSpecError>)
        requires
            duration_in_samples is Some ==> sr > 0,
            (duration_in_samples == Some(0u64) && self.loop_kind() is Samples) ==> self.endpoints_checked(
                sr,
            ) is Err,
        ensures
            r == self.validation(sr, duration_in_samples),
    {
        match self.get_endpoints_samples(sr) {
            Err(e) => {
                return Err(e);
            },
            Ok(_) => {},
        }
        let dur_samples = match duration_in_samples {
            None => {
                return Ok(());
            },
            Some(d) => d,
        };
        match self.kind {
            LoopSpecKind::Samples { start, end } => {
                let end = match end {
                    Some(x) => x,
                    None => 0,
                };
                if start >= dur_samples - 1 {
                    Err(LoopSpecError::StartAfterEof)
                } else if end >= dur_samples {
                    Err(LoopSpecError::EndAfterEof)
                } else {
                    Ok(())
                }
            },
            LoopSpecKind::Timestamps { start, end } => {
                let got = duration_in_nanos(dur_samples, sr);
                let end_nanos: u128 = match end {
                    Some(x) => x.as_nanos(),
                    None => 0,
                };
                if start.as_nanos() >= got {
                    Err(LoopSpecError::StartAfterEof)
                } else if end_nanos >= got {
                    Err(LoopSpecError::EndAfterEof)
                } else {
                    Ok(())
                }
            },
            _ => Ok(()),
        }
    }
}

/// Total nanoseconds of `dur` samples at `sr`: whole seconds exactly, the remainder rounded up to the next
/// nanosecond.
fn duration_in_nanos(dur: u64, sr: u64) -> (r: u128)
    requires
        sr > 0,
    ensures
        r == duration_nanos(dur, sr),
{
    let secs = dur / sr;
    let rem = dur % sr;
    proof {
        assert((rem as int) * 1_000_000_000 < (sr as int) * 1_000_000_000) by (nonlinear_arith)
            requires
                0 <= rem < sr,
        ;
    }
    let scaled: u128 = (rem as u128) * 1_000_000_000 + (sr as u128) - 1;
    let sub: u128 = scaled / (sr as u128);
    proof {
        vstd::arithmetic::div_mod::lemma_div_is_ordered(
            scaled as int,
            (sr as int) * 1_000_000_000 + sr,
            sr as int,
        );
        assert(((sr as int) * 1_000_000_000 + sr) / (sr as int) == 1_000_000_001) by (nonlinear_arith)
            requires
                sr > 0,
        ;
    }
    (secs as u128) * 1_000_000_000 + sub
}

/// A loop specification is determined by what it asks for and whether rounding is allowed: two with the same
/// kind and rounding flag are equal.  So [LoopSpec::samples] gives equal results exactly for equal arguments.
pub proof fn lemma_loop_spec_determined(a: LoopSpec, b: LoopSpec)
    requires
        a.loop_kind() == b.loop_kind(),
        a.rounding_allowed() == b.rounding_allowed(),
    ensures
        a == b,
{
}

/// A specification that does not loop has no endpoints, at every sampling rate.
pub proof fn lemma_no_loop_has_no_endpoints(s: LoopSpec, sr: u64)
    requires
        s.loop_kind() == LoopSpecKind::Off,
    ensures
        s.endpoints_checked(sr) == Ok::<Option<(LoopPointInSamples, LoopPointInSamples)>, LoopSpecError>(None),
{
}

/// Looping over everything goes from the first sample to the end of the audio, at every sampling rate.
pub proof fn lemma_whole_loop_endpoints(s: LoopSpec, sr: u64)
    requires
        s.loop_kind() == LoopSpecKind::All,
    ensures
        s.endpoints_checked(sr) == Ok::<Option<(LoopPointInSamples, LoopPointInSamples)>, LoopSpecError>(
            Some((LoopPointInSamples::Sample(0), LoopPointInSamples::End)),
        ),
{
}

/// Loops given in samples are taken as they are: their endpoints do not depend on the sampling rate.
pub proof fn lemma_sample_loops_ignore_rate(s: LoopSpec, sr1: u64, sr2: u64)
    requires
        s.loop_kind() is Samples,
    ensures
        s.endpoints(sr1) == s.endpoints(sr2),
{
}

/// Any timestamp loop longer than one sample period (`1/sr` seconds) has valid endpoints, as long as its
/// end does not lie beyond the last representable sample.
pub proof fn lemma_long_timestamp_loops_are_valid(s: LoopSpec, sr: u64, start: TimeSpan, end: TimeSpan)
    requires
        s.loop_kind() == (LoopSpecKind::Timestamps { start, end: Some(end) }),
        (end@ - start@) * sr > 1_000_000_000,
        end@ * sr / 1_000_000_000int <= u64::MAX,
    ensures
        s.endpoints_checked(sr) is Ok,
        s.endpoints(sr) matches Some((LoopPointInSamples::Sample(a), LoopPointInSamples::Sample(b))) && a < b,
{
    let x = start@ * sr;
    let y = end@ * sr;
    assert(x + 1_000_000_000 < y) by (nonlinear_arith)
        requires
            (end@ - start@) * sr > 1_000_000_000,
            x == start@ * sr,
            y == end@ * sr,
    ;
    vstd::arithmetic::div_mod::lemma_div_is_ordered(x + 1_000_000_000, y, 1_000_000_000);
    vstd::arithmetic::div_mod::lemma_hoist_over_denominator(x, 1, 1_000_000_000nat);
    vstd::arithmetic::div_mod::lemma_div_is_ordered(x, y, 1_000_000_000);
}

/// A loop that validates against a source with no frames loops the whole of it, from frame 0.
pub(crate) proof fn lemma_empty_source_loops_from_start(s: LoopSpec, sr: u64, start: u64)
    requires
        sr > 0,
        s.validation(sr, Some(0u64)) is Ok,
        s.endpoints(sr) matches Some((LoopPointInSamples::Sample(st), _)) && st == start,
    ensures
        start == 0,
{
    vstd::arithmetic::div_mod::lemma_basic_div((sr - 1) as int, sr as int);
    assert(duration_nanos(0, sr) == 0);
}

/// A loop that validates against a known, non-empty duration starts inside the audio, so seeking to its
/// start is always possible.
pub proof fn lemma_validated_loop_starts_inside(s: LoopSpec, sr: u64, dur: u64, start: u64)
    requires
        sr > 0,
        dur > 0,
        s.validation(sr, Some(dur)) is Ok,
        s.endpoints(sr) matches Some((LoopPointInSamples::Sample(st), _)) && st == start,
    ensures
        start < dur,
{
    match s.loop_kind() {
        LoopSpecKind::Timestamps { start: st_time, end: _ } => {
            let secs = dur / sr;
            let rem = dur % sr;
            let num = rem as int * 1_000_000_000 + sr - 1;
            let c = num / (sr as int);
            let got = duration_nanos(dur, sr);
            vstd::arithmetic::div_mod::lemma_fundamental_div_mod(dur as int, sr as int);
            vstd::arithmetic::div_mod::lemma_fundamental_div_mod(num, sr as int);
            vstd::arithmetic::div_mod::lemma_mod_pos_bound(num, sr as int);
            assert(got == secs * 1_000_000_000 + c);
            let x = st_time@ * sr;
            assert(x < dur as int * 1_000_000_000) by (nonlinear_arith)
                requires
                    st_time@ < got,
                    got == secs * 1_000_000_000 + c,
                    x == st_time@ * sr,
                    dur == sr * secs + rem,
                    num == sr * c + num % (sr as int),
                    num % (sr as int) >= 0,
                    num == rem * 1_000_000_000 + sr - 1,
                    sr > 0,
                    c >= 0,
            ;
            vstd::arithmetic::div_mod::lemma_div_is_ordered(x, dur as int * 1_000_000_000 - 1, 1_000_000_000);
            assert((dur as int * 1_000_000_000 - 1) / 1_000_000_000 == dur - 1) by {
                vstd::arithmetic::div_mod::lemma_fundamental_div_mod_converse(
                    dur as int * 1_000_000_000 - 1,
                    1_000_000_000,
                    dur - 1,
                    999_999_999,
                );
            }
        },
        _ => {},
    }
}

/// A time before the end of an audio of `dur` samples at `sr` falls on one of its samples, rounding down.
proof fn lemma_time_inside(t: nat, sr: u64, dur: u64)
    requires
        sr > 0,
        t < duration_nanos(dur, sr),
    ensures
        t * sr / 1_000_000_000int < dur,
        samples_in_nanos(t, sr) < dur,
{
    let secs = dur / sr;
    let rem = dur % sr;
    let num = rem as int * 1_000_000_000 + sr - 1;
    let c = num / (sr as int);
    let got = duration_nanos(dur, sr);
    vstd::arithmetic::div_mod::lemma_fundamental_div_mod(dur as int, sr as int);
    vstd::arithmetic::div_mod::lemma_fundamental_div_mod(num, sr as int);
    vstd::arithmetic::div_mod::lemma_mod_pos_bound(num, sr as int);
    assert(got == secs * 1_000_000_000 + c);
    let x = t * sr;
    assert(x < dur as int * 1_000_000_000) by (nonlinear_arith)
        requires
            t < got,
            got == secs * 1_000_000_000 + c,
            x == t * sr,
            dur == sr * secs + rem,
            num == sr * c + num % (sr as int),
            num % (sr as int) >= 0,
            num == rem * 1_000_000_000 + sr - 1,
            sr > 0,
            c >= 0,
    ;
    vstd::arithmetic::div_mod::lemma_div_is_ordered(x, dur as int * 1_000_000_000 - 1, 1_000_000_000);
    assert((dur as int * 1_000_000_000 - 1) / 1_000_000_000 == dur - 1) by {
        vstd::arithmetic::div_mod::lemma_fundamental_div_mod_converse(
            dur as int * 1_000_000_000 - 1,
            1_000_000_000,
            dur - 1,
            999_999_999,
        );
    }
}

/// A time lies before the end of an audio of `dur` samples at `sr` exactly when it falls, rounding down, on one
/// of its samples.
pub proof fn lemma_time_inside_iff(t: nat, sr: u64, dur: u64)
    requires
        sr > 0,
    ensures
        t < duration_nanos(dur, sr) <==> t * sr / 1_000_000_000int < dur,
{
    if t < duration_nanos(dur, sr) {
        lemma_time_inside(t, sr, dur);
    } else {
        let secs = dur / sr;
        let rem = dur % sr;
        let num = rem as int * 1_000_000_000 + sr - 1;
        let c = num / (sr as int);
        vstd::arithmetic::div_mod::lemma_fundamental_div_mod(dur as int, sr as int);
        vstd::arithmetic::div_mod::lemma_fundamental_div_mod(num, sr as int);
        vstd::arithmetic::div_mod::lemma_mod_pos_bound(num, sr as int);
        assert(duration_nanos(dur, sr) == secs * 1_000_000_000 + c);
        let x = t * sr;
        assert(x >= dur as int * 1_000_000_000) by (nonlinear_arith)
            requires
                t >= secs * 1_000_000_000 + c,
                x == t * sr,
                dur == sr * secs + rem,
                num == sr * c + num % (sr as int),
                num % (sr as int) < sr,
                num == rem * 1_000_000_000 + sr - 1,
                sr > 0,
        ;
        vstd::arithmetic::div_mod::lemma_div_is_ordered(dur as int * 1_000_000_000, x, 1_000_000_000);
        vstd::arithmetic::div_mod::lemma_div_multiples_vanish(dur as int, 1_000_000_000);
        assert(1_000_000_000 * (dur as int) == dur as int * 1_000_000_000);
    }
}

/// A loop that validates against a known duration ends inside the audio: an end given in samples is a sample
/// of it, an end given as a time lies before its length (so a 5-second end on 1 second of audio is refused),
/// and either way the end point in samples is one of its samples.
pub proof fn lemma_validated_loop_ends_inside(s: LoopSpec, sr: u64, dur: u64)
    requires
        sr > 0,
        s.validation(sr, Some(dur)) is Ok,
    ensures
        s.loop_kind() matches LoopSpecKind::Samples { end: Some(e), .. } ==> e < dur,
        s.loop_kind() matches LoopSpecKind::Timestamps { end: Some(e), .. } ==> e@ < duration_nanos(dur, sr),
        s.endpoints(sr) matches Some((_, LoopPointInSamples::Sample(e))) ==> e < dur,
{
    match s.loop_kind() {
        LoopSpecKind::Timestamps { start: _, end: Some(e) } => {
            lemma_time_inside(e@, sr, dur);
        },
        _ => {},
    }
}

/// Against a known duration, a loop whose endpoints are in order validates exactly when it lies inside the
/// audio: a loop in samples must start before the last sample and end (if it names an end) on a sample of the
/// audio; a loop in times must start and end before the audio's length.  A start outside is refused as
/// starting after the end, otherwise an end outside as ending after it.  Looping over everything, or not at
/// all, always validates, and so does any loop whose endpoints are in order when the duration is unknown.
pub proof fn lemma_validation_with_duration(s: LoopSpec, sr: u64, dur: u64)
    requires
        s.endpoints_checked(sr) is Ok,
    ensures
        s.validation(sr, None) is Ok,
        s.loop_kind() matches LoopSpecKind::Samples { start, end } ==> {
            let start_in = start + 1 < dur;
            let end_in = end matches Some(e) ==> e < dur;
            &&& s.validation(sr, Some(dur)) is Ok <==> start_in && end_in
            &&& !start_in ==> s.validation(sr, Some(dur)) == Err::<(), LoopSpecError>(LoopSpecError::StartAfterEof)
            &&& start_in && !end_in ==> s.validation(sr, Some(dur)) == Err::<(), LoopSpecError>(
                LoopSpecError::EndAfterEof,
            )
        },
        s.loop_kind() matches LoopSpecKind::Timestamps { start, end } ==> {
            let start_in = start@ < duration_nanos(dur, sr);
            let end_in = end matches Some(e) ==> e@ < duration_nanos(dur, sr);
            &&& s.validation(sr, Some(dur)) is Ok <==> start_in && end_in
            &&& !start_in ==> s.validation(sr, Some(dur)) == Err::<(), LoopSpecError>(LoopSpecError::StartAfterEof)
            &&& start_in && !end_in ==> s.validation(sr, Some(dur)) == Err::<(), LoopSpecError>(
                LoopSpecError::EndAfterEof,
            )
        },
        (s.loop_kind() is All || s.loop_kind() is Off) ==> s.validation(sr, Some(dur)) is Ok,
{
}

impl Default for LoopSpec {
    /// The same as [LoopSpec::none].
    fn default() -> (r: Self)
        ensures
            r.loop_kind() == LoopSpecKind::Off,
            !r.rounding_allowed(),
    {
        LoopSpec::none()
    }
}

} // verus!
