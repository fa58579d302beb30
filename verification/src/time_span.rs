use vstd::arithmetic::div_mod::*;
use vstd::prelude::*;

verus! {

/// Nanoseconds in one second.
pub const NANOS_PER_SEC: u32 = 1_000_000_000;

/// A span of time measured from the beginning of some audio, with nanosecond resolution.
///
/// This plays the role of `std::time::Duration` in loop specifications: it holds whole seconds and a
/// sub-second part, and its view is the total number of nanoseconds.
#[derive(Clone, Copy, Debug, PartialEq, Eq, Hash, Structural)]
pub struct TimeSpan {
    secs: u64,
    nanos: u32,
}

impl View for TimeSpan {
    type V = nat;

    /// Total nanoseconds.
    closed spec fn view(&self) -> nat {
        self.secs as nat * 1_000_000_000 + self.nanos as nat
    }
}

/// The number of whole samples that have elapsed after `nanos` nanoseconds at `sr` samples per second,
/// rounded down, and saturated at `u64::MAX`.
pub open spec fn samples_in_nanos(nanos: nat, sr: u64) -> u64 {
    let exact = nanos * sr / 1_000_000_000int;
    if exact > u64::MAX {
        u64::MAX
    } else {
        exact as u64
    }
}

/// The number of samples needed to cover `nanos` nanoseconds at `sr` samples per second: the exact product
/// rounded up.
pub open spec fn samples_covering(nanos: nat, sr: u64) -> nat {
    ((nanos * sr + 999_999_999) / 1_000_000_000int) as nat
}

/// The largest number of nanoseconds a [TimeSpan] can hold.
pub open spec fn max_time_span_nanos() -> nat {
    u64::MAX as nat * 1_000_000_000 + 999_999_999
}

impl TimeSpan {
    #[verifier::type_invariant]
    spec fn inv(self) -> bool {
        self.nanos < NANOS_PER_SEC
    }

    /// A span of `secs` seconds plus `nanos` nanoseconds; nanoseconds beyond a second carry into the seconds.
    pub fn new(secs: u64, nanos: u32) -> (r: TimeSpan)
        requires
            secs + nanos / 1_000_000_000 <= u64::MAX,
        ensures
            r@ == secs * 1_000_000_000 + nanos,
    {
        let extra = (nanos / NANOS_PER_SEC) as u64;
        let rem = nanos % NANOS_PER_SEC;
        proof {
            lemma_fundamental_div_mod(nanos as int, 1_000_000_000);
        }
        TimeSpan { secs: secs + extra, nanos: rem }
    }

    /// A span of whole seconds.
    pub fn from_secs(secs: u64) -> (r: TimeSpan)
        ensures
            r@ == secs * 1_000_000_000,
    {
        TimeSpan { secs, nanos: 0 }
    }

    /// A span of whole milliseconds.
    pub fn from_millis(millis: u64) -> (r: TimeSpan)
        ensures
            r@ == millis * 1_000_000,
    {
        let secs = millis / 1000;
        let rem = millis % 1000;
        proof {
            lemma_fundamental_div_mod(millis as int, 1000);
        }
        TimeSpan { secs, nanos: (rem as u32) * 1_000_000 }
    }

    /// The sum of two spans.
    pub fn add(self, other: TimeSpan) -> (r: TimeSpan)
        requires
            self@ + other@ <= max_time_span_nanos(),
        ensures
            r@ == self@ + other@,
    {
        proof {
            use_type_invariant(&self);
            use_type_invariant(&other);
        }
        let n = self.nanos + other.nanos;
        if n >= NANOS_PER_SEC {
            TimeSpan { secs: self.secs + other.secs + 1, nanos: n - NANOS_PER_SEC }
        } else {
            TimeSpan { secs: self.secs + other.secs, nanos: n }
        }
    }

    /// Whole seconds in this span.
    pub fn as_secs(&self) -> (r: u64)
        ensures
            r == self@ / 1_000_000_000,
    {
        proof {
            use_type_invariant(self);
            lemma_fundamental_div_mod_converse(self@ as int, 1_000_000_000, self.secs as int, self.nanos as int);
        }
        self.secs
    }

    /// Nanoseconds beyond the whole seconds.
    pub fn subsec_nanos(&self) -> (r: u32)
        ensures
            r == self@ % 1_000_000_000,
            r < NANOS_PER_SEC,
    {
        proof {
            use_type_invariant(self);
            lemma_fundamental_div_mod_converse(self@ as int, 1_000_000_000, self.secs as int, self.nanos as int);
        }
        self.nanos
    }

    /// Total nanoseconds in this span.
    pub fn as_nanos(&self) -> (r: u128)
        ensures
            r == self@,
    {
        (self.secs as u128) * 1_000_000_000 + (self.nanos as u128)
    }

    /// The index of the sample at which this span ends for a source at `sr` samples per second: the exact
    /// product rounded down, saturated at `u64::MAX`.
    pub fn to_samples_floor(&self, sr: u64) -> (r: u64)
        ensures
            r == samples_in_nanos(self@, sr),
    {
        proof {
            use_type_invariant(self);
            let s = self.secs as int;
            let n = self.nanos as int;
            let r = sr as int;
            assert(self@ * sr == (s * r) * 1_000_000_000 + n * r) by (nonlinear_arith)
                requires
                    self@ == s * 1_000_000_000 + n,
                    r == sr,
            ;
            lemma_hoist_over_denominator(n * r, s * r, 1_000_000_000nat);
            assert(s * r <= u64::MAX * u64::MAX) by (nonlinear_arith)
                requires
                    0 <= s <= u64::MAX,
                    0 <= r <= u64::MAX,
            ;
            assert(n * r <= 1_000_000_000 * u64::MAX) by (nonlinear_arith)
                requires
                    0 <= n <= 1_000_000_000,
                    0 <= r <= u64::MAX,
            ;
            lemma_div_is_ordered(n * r, 1_000_000_000 * u64::MAX, 1_000_000_000);
            lemma_div_multiples_vanish(u64::MAX as int, 1_000_000_000);
        }
        let whole: u128 = (self.secs as u128) * (sr as u128);
        let part: u128 = (self.nanos as u128) * (sr as u128) / 1_000_000_000;
        let total = whole + part;
        if total > u64::MAX as u128 {
            u64::MAX
        } else {
            total as u64
        }
    }

    /// The number of samples at `sr` samples per second needed to cover this span: the exact product rounded up,
    /// saturated at `usize::MAX`.
    pub fn to_samples_ceil(&self, sr: u64) -> (r: usize)
        ensures
            r == if samples_covering(self@, sr) > usize::MAX {
                usize::MAX as nat
            } else {
                samples_covering(self@, sr)
            },
    {
        proof {
            use_type_invariant(self);
            let s = self.secs as int;
            let n = self.nanos as int;
            let r = sr as int;
            assert(self@ * sr + 999_999_999 == (s * r) * 1_000_000_000 + (n * r + 999_999_999)) by (nonlinear_arith)
                requires
                    self@ == s * 1_000_000_000 + n,
                    r == sr,
            ;
            lemma_hoist_over_denominator(n * r + 999_999_999, s * r, 1_000_000_000nat);
            assert(s * r <= u64::MAX * u64::MAX) by (nonlinear_arith)
                requires
                    0 <= s <= u64::MAX,
                    0 <= r <= u64::MAX,
            ;
            assert(n * r + 999_999_999 <= 1_000_000_000 * u64::MAX + 999_999_999) by (nonlinear_arith)
                requires
                    0 <= n <= 1_000_000_000,
                    0 <= r <= u64::MAX,
            ;
            lemma_div_is_ordered(n * r + 999_999_999, 1_000_000_000 * u64::MAX + 999_999_999, 1_000_000_000);
            lemma_hoist_over_denominator(999_999_999, u64::MAX as int, 1_000_000_000nat);
        }
        let whole: u128 = (self.secs as u128) * (sr as u128);
        let part: u128 = ((self.nanos as u128) * (sr as u128) + 999_999_999) / 1_000_000_000;
        let total = whole + part;
        if total > usize::MAX as u128 {
            usize::MAX
        } else {
            total as usize
        }
    }
}

/// The number of frames at the library's sampling rate needed to cover `dur`, rounding up (saturated at
/// `usize::MAX`).
pub fn duration_to_samples(dur: &TimeSpan) -> (r: usize)
    ensures
        r == if samples_covering(dur@, crate::config::SR) > usize::MAX {
            usize::MAX as nat
        } else {
            samples_covering(dur@, crate::config::SR)
        },
{
    dur.to_samples_ceil(crate::config::SR)
}

} // verus!
