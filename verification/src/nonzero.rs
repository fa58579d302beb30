use vstd::prelude::*;

verus! {

/// A `usize` which is never zero; used for channel counts.
#[derive(Clone, Copy, Debug, PartialEq, Eq, Hash)]
pub struct NonZeroCount {
    value: usize,
}

impl NonZeroCount {
    #[verifier::type_invariant]
    spec fn inv(self) -> bool {
        self.value > 0
    }

    /// The value held.
    pub closed spec fn view(self) -> usize {
        self.value
    }

    /// Build from `n`, or `None` when `n` is zero.
    pub fn new(n: usize) -> (r: Option<NonZeroCount>)
        ensures
            n == 0 <==> r is None,
            r matches Some(c) ==> c@ == n,
    {
        if n == 0 {
            None
        } else {
            Some(NonZeroCount { value: n })
        }
    }

    /// The value held, which is positive.
    pub fn get(&self) -> (r: usize)
        ensures
            r == self@,
            r > 0,
    {
        proof {
            use_type_invariant(self);
        }
        self.value
    }
}

/// A `u64` which is never zero; used for sampling rates.
#[derive(Clone, Copy, Debug, PartialEq, Eq, Hash)]
pub struct NonZeroRate {
    value: u64,
}

impl NonZeroRate {
    #[verifier::type_invariant]
    spec fn inv(self) -> bool {
        self.value > 0
    }

    /// The value held.
    pub closed spec fn view(self) -> u64 {
        self.value
    }

    /// Build from `n`, or `None` when `n` is zero.
    pub fn new(n: u64) -> (r: Option<NonZeroRate>)
        ensures
            n == 0 <==> r is None,
            r matches Some(c) ==> c@ == n,
    {
        if n == 0 {
            None
        } else {
            Some(NonZeroRate { value: n })
        }
    }

    /// The value held, which is positive.
    pub fn get(&self) -> (r: u64)
        ensures
            r == self@,
            r > 0,
    {
        proof {
            use_type_invariant(self);
        }
        self.value
    }
}

} // verus!
