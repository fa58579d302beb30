use crate::nonzero::NonZeroCount;
use vstd::prelude::*;

verus! {

/// Index read by a delay of `delay` frames when the write position is `offset`, in a line of `len` frames:
/// `delay` frames into the past, wrapping around the end of the line.
pub open spec fn read_index(offset: nat, delay: nat, len: nat) -> nat {
    ((len + offset - delay % len) % (len as int)) as nat
}

/// A delay line: a ring of frames written at one position and read at some delay into the past.
///
/// Positive delays are into the past.  Delays longer than the line wrap around it.  Data is written at the
/// position of a [DelayLineCursor], which then moves on by one frame per tick.
pub struct DelayLineHandle<T> {
    data: Vec<T>,
}

/// The position at which a signal reads and writes a delay line; it advances by one frame per tick.
#[derive(Clone, Copy, Debug, PartialEq, Eq, Hash, Structural)]
pub struct DelayLineCursor {
    offset: usize,
}

impl DelayLineCursor {
    /// The current position in the line.
    pub closed spec fn position(self) -> nat {
        self.offset as nat
    }

    /// A cursor at the start of a line.
    pub fn new() -> (r: Self)
        ensures
            r.position() == 0,
    {
        DelayLineCursor { offset: 0 }
    }
}

/// The index read by a delay of `delay` frames at write position `offset` in a line of `len` frames.
fn delayed_index(offset: usize, delay: usize, len: usize) -> (r: usize)
    requires
        offset < len,
    ensures
        r == read_index(offset as nat, delay as nat, len as nat),
        r < len,
{
    let ds = delay % len;
    if offset >= ds {
        proof {
            vstd::arithmetic::div_mod::lemma_mod_add_multiples_vanish((offset - ds) as int, len as int);
            vstd::arithmetic::div_mod::lemma_small_mod((offset - ds) as nat, len as nat);
        }
        offset - ds
    } else {
        proof {
            vstd::arithmetic::div_mod::lemma_small_mod((len + offset - ds) as nat, len as nat);
        }
        len - (ds - offset)
    }
}

impl<T> DelayLineHandle<T> {
    /// The frames in the line.
    pub closed spec fn frames(self) -> Seq<T> {
        self.data@
    }

    /// The line is never empty.
    pub closed spec fn wf(self) -> bool {
        self.data@.len() > 0
    }

    /// A cursor position inside this line.
    pub open spec fn holds(self, cursor: DelayLineCursor) -> bool {
        cursor.position() < self.frames().len()
    }

    /// Create a line of `length` frames, each made by `factory`.
    pub fn new<F: Fn() -> T>(length: NonZeroCount, factory: F) -> (r: Self)
        requires
            call_requires(factory, ()),
            forall|x: T| #[trigger] call_ensures(factory, (), x) ==> call_requires(factory, ()),
        ensures
            r.wf(),
            r.frames().len() == length@,
            forall|i: int| 0 <= i < length@ ==> call_ensures(factory, (), #[trigger] r.frames()[i]),
    {
        let n = length.get();
        let mut data: Vec<T> = Vec::new();
        let mut i: usize = 0;
        while i < n
            invariant
                i <= n,
                data@.len() == i,
                call_requires(factory, ()),
                forall|x: T| #[trigger] call_ensures(factory, (), x) ==> call_requires(factory, ()),
                forall|j: int| 0 <= j < i ==> call_ensures(factory, (), #[trigger] data@[j]),
            decreases n - i,
        {
            let v = factory();
            data.push(v);
            i = i + 1;
        }
        DelayLineHandle { data }
    }

    /// Create a line of `length` frames, each a clone of `value`.
    pub fn new_cloningf(length: NonZeroCount, value: T) -> (r: Self)
        where
            T: Clone,
        ensures
            r.wf(),
            r.frames().len() == length@,
            forall|i: int| 0 <= i < length@ ==> cloned(value, #[trigger] r.frames()[i]),
    {
        let n = length.get();
        let mut data: Vec<T> = Vec::new();
        let mut i: usize = 0;
        while i < n
            invariant
                i <= n,
                data@.len() == i,
                forall|j: int| 0 <= j < i ==> cloned(value, #[trigger] data@[j]),
            decreases n - i,
        {
            let v = value.clone();
            data.push(v);
            i = i + 1;
        }
        DelayLineHandle { data }
    }

    /// Create a line of `length` default frames.
    pub fn new_defaulting(length: NonZeroCount) -> (r: Self)
        where
            T: Default,
        ensures
            r.wf(),
            r.frames().len() == length@,
    {
        let n = length.get();
        let mut data: Vec<T> = Vec::new();
        let mut i: usize = 0;
        while i < n
            invariant
                i <= n,
                data@.len() == i,
            decreases n - i,
        {
            data.push(T::default());
            i = i + 1;
        }
        DelayLineHandle { data }
    }

    /// Number of frames in the line.
    pub fn len(&self) -> (r: usize)
        requires
            self.wf(),
        ensures
            r == self.frames().len(),
            r > 0,
    {
        self.data.len()
    }
}

impl<T: Copy> DelayLineHandle<T> {
    /// Read the frame `delay` frames before the cursor, then move the cursor on by one frame.
    pub fn read(&self, cursor: &mut DelayLineCursor, delay: usize) -> (r: T)
        requires
            self.wf(),
            self.holds(*old(cursor)),
        ensures
            r == self.frames()[read_index(old(cursor).position(), delay as nat, self.frames().len()) as int],
            final(cursor).position() == (old(cursor).position() + 1) % self.frames().len(),
            self.holds(*final(cursor)),
    {
        let len = self.data.len();
        let index = delayed_index(cursor.offset, delay, len);
        let val = self.data[index];
        cursor.offset = (cursor.offset + 1) % len;
        val
    }

    /// Write `value` at the cursor, then move the cursor on by one frame.
    pub fn write(&mut self, cursor: &mut DelayLineCursor, value: T)
        requires
            old(self).wf(),
            old(self).holds(*old(cursor)),
        ensures
            final(self).wf(),
            final(self).frames() == old(self).frames().update(old(cursor).position() as int, value),
            final(cursor).position() == (old(cursor).position() + 1) % old(self).frames().len(),
            final(self).holds(*final(cursor)),
    {
        let len = self.data.len();
        self.data.set(cursor.offset, value);
        cursor.offset = (cursor.offset + 1) % len;
    }

    /// Combine `value` into the frame at the cursor with `merge(old, value)`, then move the cursor on by one
    /// frame.  This is how a line is written by adding rather than replacing.
    pub fn write_merged<F: Fn(T, T) -> T>(&mut self, cursor: &mut DelayLineCursor, value: T, merge: F)
        requires
            old(self).wf(),
            old(self).holds(*old(cursor)),
            forall|a: T, b: T| call_requires(merge, (a, b)),
        ensures
            final(self).wf(),
            final(self).frames().len() == old(self).frames().len(),
            call_ensures(
                merge,
                (old(self).frames()[old(cursor).position() as int], value),
                final(self).frames()[old(cursor).position() as int],
            ),
            forall|i: int|
                0 <= i < old(self).frames().len() && i != old(cursor).position()
                    ==> #[trigger] final(self).frames()[i] == old(self).frames()[i],
            final(cursor).position() == (old(cursor).position() + 1) % old(self).frames().len(),
            final(self).holds(*final(cursor)),
    {
        let len = self.data.len();
        let current = self.data[cursor.offset];
        let merged = merge(current, value);
        self.data.set(cursor.offset, merged);
        cursor.offset = (cursor.offset + 1) % len;
    }

    /// Write `value` at the cursor and then read the frame `delay` frames before the cursor, so that a delay
    /// of 0 gives back `value`; then move the cursor on by one frame.
    pub fn write_read(&mut self, cursor: &mut DelayLineCursor, delay: usize, value: T) -> (r: T)
        requires
            old(self).wf(),
            old(self).holds(*old(cursor)),
        ensures
            final(self).wf(),
            final(self).frames() == old(self).frames().update(old(cursor).position() as int, value),
            r == final(self).frames()[read_index(old(cursor).position(), delay as nat, old(self).frames().len())
                as int],
            final(cursor).position() == (old(cursor).position() + 1) % old(self).frames().len(),
            final(self).holds(*final(cursor)),
    {
        let len = self.data.len();
        let write_ind = cursor.offset % len;
        proof {
            vstd::arithmetic::div_mod::lemma_small_mod(cursor.offset as nat, len as nat);
        }
        self.data.set(write_ind, value);
        let read_ind = delayed_index(cursor.offset, delay, len);
        let read_val = self.data[read_ind];
        cursor.offset = (cursor.offset + 1) % len;
        read_val
    }
}

/// A delay of zero reads the position being written.
pub proof fn lemma_zero_delay_reads_current(offset: nat, len: nat)
    requires
        offset < len,
    ensures
        read_index(offset, 0, len) == offset,
{
    vstd::arithmetic::div_mod::lemma_small_mod(0, len);
    vstd::arithmetic::div_mod::lemma_mod_add_multiples_vanish(offset as int, len as int);
    vstd::arithmetic::div_mod::lemma_small_mod(offset, len);
}

/// A frame written at some position is read back by a delay of `k` frames exactly `k` ticks later, for
/// every delay shorter than the line.
pub proof fn lemma_delay_reads_past_write(offset: nat, k: nat, len: nat)
    requires
        offset < len,
        k < len,
    ensures
        read_index((offset + k) % len, k, len) == offset,
{
    vstd::arithmetic::div_mod::lemma_small_mod(k, len);
    if offset + k < len {
        vstd::arithmetic::div_mod::lemma_small_mod(offset + k, len);
        vstd::arithmetic::div_mod::lemma_mod_add_multiples_vanish(offset as int, len as int);
        vstd::arithmetic::div_mod::lemma_small_mod(offset, len);
    } else {
        vstd::arithmetic::div_mod::lemma_mod_sub_multiples_vanish((offset + k) as int, len as int);
        vstd::arithmetic::div_mod::lemma_small_mod((offset + k - len) as nat, len);
        vstd::arithmetic::div_mod::lemma_small_mod(offset, len);
    }
}

/// Delays that differ by a whole number of line lengths read the same frame.
pub proof fn lemma_delay_wraps(offset: nat, delay: nat, len: nat)
    requires
        len > 0,
    ensures
        read_index(offset, delay + len, len) == read_index(offset, delay, len),
{
    vstd::arithmetic::div_mod::lemma_mod_add_multiples_vanish(delay as int, len as int);
}

} // verus!
