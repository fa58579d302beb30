use std::marker::PhantomData;
use vstd::prelude::*;

verus! {

/// Integer types that [FixedInt] and [VaryingInt] can carry.
pub trait IntType: Copy + Eq {
    /// The value of this type that `what` converts to, wrapping as `as` does.
    spec fn spec_from_i64(what: i64) -> Self;

    /// Convert from `i64`, wrapping as `as` does.
    fn from_i64(what: i64) -> (r: Self)
        ensures
            r == Self::spec_from_i64(what),
    ;
}

impl IntType for i8 {
    open spec fn spec_from_i64(what: i64) -> i8 {
        what as i8
    }

    fn from_i64(what: i64) -> (r: i8) {
        what as i8
    }
}

impl IntType for u8 {
    open spec fn spec_from_i64(what: i64) -> u8 {
        what as u8
    }

    fn from_i64(what: i64) -> (r: u8) {
        what as u8
    }
}

impl IntType for i16 {
    open spec fn spec_from_i64(what: i64) -> i16 {
        what as i16
    }

    fn from_i64(what: i64) -> (r: i16) {
        what as i16
    }
}

impl IntType for u16 {
    open spec fn spec_from_i64(what: i64) -> u16 {
        what as u16
    }

    fn from_i64(what: i64) -> (r: u16) {
        what as u16
    }
}

impl IntType for i32 {
    open spec fn spec_from_i64(what: i64) -> i32 {
        what as i32
    }

    fn from_i64(what: i64) -> (r: i32) {
        what as i32
    }
}

impl IntType for u32 {
    open spec fn spec_from_i64(what: i64) -> u32 {
        what as u32
    }

    fn from_i64(what: i64) -> (r: u32) {
        what as u32
    }
}

impl IntType for i64 {
    open spec fn spec_from_i64(what: i64) -> i64 {
        what
    }

    fn from_i64(what: i64) -> (r: i64) {
        what
    }
}

impl IntType for u64 {
    open spec fn spec_from_i64(what: i64) -> u64 {
        what as u64
    }

    fn from_i64(what: i64) -> (r: u64) {
        what as u64
    }
}

impl IntType for usize {
    open spec fn spec_from_i64(what: i64) -> usize {
        what as usize
    }

    fn from_i64(what: i64) -> (r: usize) {
        what as usize
    }
}

/// An integer known when the program is compiled, carried in the type.
///
/// Values are given as non-negative numbers.
pub struct FixedInt<T, const VAL: u64>(PhantomData<T>);

/// An integer known only when the program runs.
#[derive(Clone, Copy, Debug, PartialEq, Eq)]
pub struct VaryingInt<T>(pub T);

impl<T: IntType, const VAL: u64> FixedInt<T, VAL> {
    /// The fixed integer.
    pub fn new() -> (r: Self) {
        FixedInt(PhantomData)
    }

    /// The value, converted to `T`.
    pub fn get(&self) -> (r: T)
        ensures
            r == T::spec_from_i64(VAL as i64),
    {
        T::from_i64(VAL as i64)
    }

    /// Always true: the value is fixed.
    pub fn is_fixed(&self) -> (r: bool)
        ensures
            r,
    {
        true
    }
}

impl<T: IntType> VaryingInt<T> {
    /// Wrap a value.
    pub fn new(val: T) -> (r: Self)
        ensures
            r.0 == val,
    {
        VaryingInt(val)
    }

    /// The value held.
    pub fn get(&self) -> (r: T)
        ensures
            r == self.0,
    {
        self.0
    }

    /// Always false: the value varies.
    pub fn is_fixed(&self) -> (r: bool)
        ensures
            !r,
    {
        false
    }
}

/// Something that yields an integer, fixed or varying.
pub trait IntSource {
    /// The integer type produced.
    type Output;

    /// The integer this source stands for.
    spec fn int_value(&self) -> Self::Output;

    /// Get the integer.
    fn as_int(&self) -> (r: Self::Output)
        ensures
            r == self.int_value(),
    ;
}

impl<T: IntType, const VAL: u64> IntSource for FixedInt<T, VAL> {
    type Output = T;

    open spec fn int_value(&self) -> T {
        T::spec_from_i64(VAL as i64)
    }

    fn as_int(&self) -> (r: T) {
        self.get()
    }
}

impl<T: IntType> IntSource for VaryingInt<T> {
    type Output = T;

    open spec fn int_value(&self) -> T {
        self.0
    }

    fn as_int(&self) -> (r: T) {
        self.get()
    }
}

} // verus!
