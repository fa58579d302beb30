//! The stereo block the audio thread mixes into, handed to the device in pieces of whatever size it asks for.
use crate::config::BLOCK_SIZE;
use crate::signal_maps::{applied, FrameFunction};
use vstd::prelude::*;

verus! {

/// One block of stereo frames, and how many of them, at its end, have not yet been handed out.
pub struct OutputBlock<T> {
    frames: Vec<(T, T)>,
    remaining: usize,
}

impl<T: Copy> OutputBlock<T> {
    /// The frames of the block.
    pub closed spec fn frames_view(self) -> Seq<(T, T)> {
        self.frames@
    }

    /// Frames, at the end of the block, not yet handed out.
    pub closed spec fn remaining_view(self) -> nat {
        self.remaining as nat
    }

    /// The block holds [BLOCK_SIZE] frames and no more remain than that.
    pub open spec fn wf(self) -> bool {
        &&& self.frames_view().len() == BLOCK_SIZE
        &&& self.remaining_view() <= BLOCK_SIZE
    }

    /// A silent block, all of it handed out already.
    pub fn new(silence: T) -> (r: Self)
        ensures
            r.wf(),
            r.remaining_view() == 0,
            forall|i: int| 0 <= i < BLOCK_SIZE ==> #[trigger] r.frames_view()[i] == (silence, silence),
    {
        let mut frames: Vec<(T, T)> = Vec::new();
        let mut i: usize = 0;
        while i < BLOCK_SIZE
            invariant
                i <= BLOCK_SIZE,
                frames@.len() == i,
                forall|j: int| 0 <= j < i ==> #[trigger] frames@[j] == (silence, silence),
            decreases BLOCK_SIZE - i,
        {
            frames.push((silence, silence));
            i = i + 1;
        }
        OutputBlock { frames, remaining: 0 }
    }

    /// Frames not yet handed out.
    pub fn remaining(&self) -> (r: usize)
        ensures
            r == self.remaining_view(),
    {
        self.remaining
    }

    /// Start a new block: every frame silent, and all of them to be handed out.
    pub fn start_block(&mut self, silence: T)
        requires
            old(self).wf(),
        ensures
            final(self).wf(),
            final(self).remaining_view() == BLOCK_SIZE,
            forall|i: int| 0 <= i < BLOCK_SIZE ==> #[trigger] final(self).frames_view()[i] == (silence, silence),
    {
        let mut i: usize = 0;
        while i < BLOCK_SIZE
            invariant
                i <= BLOCK_SIZE,
                self.frames@.len() == BLOCK_SIZE,
                forall|j: int| 0 <= j < i ==> #[trigger] self.frames@[j] == (silence, silence),
            decreases BLOCK_SIZE - i,
        {
            self.frames.set(i, (silence, silence));
            i = i + 1;
        }
        self.remaining = BLOCK_SIZE;
    }

    /// Install `frames` as a new block, all of it to be handed out.
    pub fn set_block(&mut self, frames: Vec<(T, T)>)
        requires
            old(self).wf(),
            frames@.len() == BLOCK_SIZE,
        ensures
            final(self).wf(),
            final(self).frames_view() == frames@,
            final(self).remaining_view() == BLOCK_SIZE,
    {
        self.frames = frames;
        self.remaining = BLOCK_SIZE;
    }

    /// The frame at `index`.
    pub fn frame(&self, index: usize) -> (r: (T, T))
        requires
            self.wf(),
            index < BLOCK_SIZE,
        ensures
            r == self.frames_view()[index as int],
    {
        self.frames[index]
    }

    /// Replace the frame at `index`.
    pub fn set_frame(&mut self, index: usize, frame: (T, T))
        requires
            old(self).wf(),
            index < BLOCK_SIZE,
        ensures
            final(self).wf(),
            final(self).frames_view() == old(self).frames_view().update(index as int, frame),
            final(self).remaining_view() == old(self).remaining_view(),
    {
        self.frames.set(index, frame);
    }

    /// Hand out frames into interleaved stereo `dest`, from sample `offset` on: as many as remain in the block
    /// and fit, each sample converted by `convert`.  Returns the sample of `dest` after the last one written.
    pub fn read_into<U, F: Fn(T) -> U>(&mut self, dest: &mut [U], offset: usize, convert: &FrameFunction<F, T, U>) -> (r:
        usize)
        requires
            old(self).wf(),
            offset <= old(dest)@.len(),
        ensures
            final(self).wf(),
            final(self).frames_view() == old(self).frames_view(),
            final(dest)@.len() == old(dest)@.len(),
            ({
                let fit = (old(dest)@.len() - offset) / 2;
                let n = if old(self).remaining_view() < fit {
                    old(self).remaining_view() as int
                } else {
                    fit
                };
                let start = BLOCK_SIZE - old(self).remaining_view();
                &&& r == offset + 2 * n
                &&& final(self).remaining_view() == old(self).remaining_view() - n
                &&& forall|k: int|
                    #![trigger final(dest)@[k]]
                    0 <= k < final(dest)@.len() ==> final(dest)@[k] == if offset <= k < r {
                        let frame = old(self).frames_view()[start + (k - offset) / 2];
                        applied(
                            convert.closure(),
                            if (k - offset) % 2 == 0 {
                                frame.0
                            } else {
                                frame.1
                            },
                        )
                    } else {
                        old(dest)@[k]
                    }
            }),
    {
        let dlen = dest.len();
        let fit = (dlen - offset) / 2;
        let n = if self.remaining < fit {
            self.remaining
        } else {
            fit
        };
        let start = BLOCK_SIZE - self.remaining;
        let mut i: usize = 0;
        while i < n
            invariant
                self.wf(),
                self.frames@ == old(self).frames@,
                self.remaining == old(self).remaining,
                start == BLOCK_SIZE - self.remaining,
                n <= self.remaining,
                offset + 2 * n <= dest@.len(),
                dest@.len() == old(dest)@.len(),
                dlen == dest@.len(),
                i <= n,
                forall|k: int|
                    #![trigger dest@[k]]
                    0 <= k < dest@.len() ==> dest@[k] == if offset <= k < offset + 2 * i {
                        let frame = old(self).frames@[start + (k - offset) / 2];
                        applied(
                            convert.closure(),
                            if (k - offset) % 2 == 0 {
                                frame.0
                            } else {
                                frame.1
                            },
                        )
                    } else {
                        old(dest)@[k]
                    },
            decreases n - i,
        {
            let (left, right) = self.frames[start + i];
            let l = convert.call(left);
            let r = convert.call(right);
            dest[offset + 2 * i] = l;
            dest[offset + 2 * i + 1] = r;
            proof {
                assert((offset + 2 * i - offset) / 2 == i && (offset + 2 * i - offset) % 2 == 0);
                assert((offset + 2 * i + 1 - offset) / 2 == i && (offset + 2 * i + 1 - offset) % 2 == 1);
            }
            i = i + 1;
        }
        self.remaining = self.remaining - n;
        offset + 2 * n
    }
}

/// A block of silent frames.
pub open spec fn silent_block<T>(silence: T) -> Seq<(T, T)> {
    Seq::new(BLOCK_SIZE as nat, |i: int| (silence, silence))
}

/// A block of silent frames.
pub fn silent_frames<T: Copy>(silence: T) -> (r: Vec<(T, T)>)
    ensures
        r@ == silent_block(silence),
{
    let mut r: Vec<(T, T)> = Vec::new();
    let mut i: usize = 0;
    while i < BLOCK_SIZE
        invariant
            i <= BLOCK_SIZE,
            r@.len() == i,
            forall|j: int| 0 <= j < i ==> #[trigger] r@[j] == (silence, silence),
        decreases BLOCK_SIZE - i,
    {
        r.push((silence, silence));
        i = i + 1;
    }
    proof {
        assert(r@ =~= silent_block(silence));
    }
    r
}

} // verus!
