use crate::config::BLOCK_SIZE;
use vstd::prelude::*;

verus! {

/// Batches frame-by-frame work into blocks of [BLOCK_SIZE] frames.
///
/// Each call hands in one input frame and hands back one output frame.  Inputs are collected until a block
/// is full; then the processor turns the whole block of inputs into a block of outputs, which are handed
/// back one at a time over the next block.  Outputs therefore lag inputs by exactly one block.
pub struct FrameBatcher<I, O> {
    input_buffer: Vec<I>,
    output_buffer: Vec<O>,
    pos: usize,
}

impl<I: Copy, O: Copy> FrameBatcher<I, O> {
    /// Inputs collected for the current block (entries at and after [Self::position] are stale).
    pub closed spec fn inputs(self) -> Seq<I> {
        self.input_buffer@
    }

    /// Outputs of the previous block, handed back one per frame.
    pub closed spec fn outputs(self) -> Seq<O> {
        self.output_buffer@
    }

    /// Position within the current block.
    pub closed spec fn position(self) -> nat {
        self.pos as nat
    }

    /// Both buffers hold one block, and the position lies inside it.
    pub open spec fn wf(self) -> bool {
        &&& self.inputs().len() == BLOCK_SIZE
        &&& self.outputs().len() == BLOCK_SIZE
        &&& self.position() < BLOCK_SIZE
    }

    /// A batcher at the start of a block, with default frames in both buffers.
    pub fn new() -> (r: Self)
        where
            I: Default,
            O: Default,
        ensures
            r.wf(),
            r.position() == 0,
            forall|k: int| 0 <= k < BLOCK_SIZE ==> call_ensures(I::default, (), #[trigger] r.inputs()[k]),
            forall|k: int| 0 <= k < BLOCK_SIZE ==> call_ensures(O::default, (), #[trigger] r.outputs()[k]),
    {
        let mut input_buffer: Vec<I> = Vec::new();
        let mut output_buffer: Vec<O> = Vec::new();
        let mut i: usize = 0;
        while i < BLOCK_SIZE
            invariant
                i <= BLOCK_SIZE,
                input_buffer@.len() == i,
                output_buffer@.len() == i,
                forall|k: int| 0 <= k < i ==> call_ensures(I::default, (), #[trigger] input_buffer@[k]),
                forall|k: int| 0 <= k < i ==> call_ensures(O::default, (), #[trigger] output_buffer@[k]),
            decreases BLOCK_SIZE - i,
        {
            input_buffer.push(I::default());
            output_buffer.push(O::default());
            i = i + 1;
        }
        FrameBatcher { input_buffer, output_buffer, pos: 0 }
    }

    /// Hand in one input frame and get back one output frame: the output produced for this position of the
    /// previous block.  When this frame completes a block, `processor` turns the block's inputs into the
    /// outputs for the next block.
    pub fn process_frame<F: Fn(&[I]) -> Vec<O>>(&mut self, input: I, processor: F) -> (r: O)
        requires
            old(self).wf(),
            forall|s: &[I]| s@.len() == BLOCK_SIZE ==> #[trigger] call_requires(processor, (s,)),
            forall|s: &[I], out: Vec<O>| #[trigger] call_ensures(processor, (s,), out) ==> out@.len() == BLOCK_SIZE,
        ensures
            final(self).wf(),
            frame_step(*old(self), input, processor, *final(self), r),
            r == old(self).outputs()[old(self).position() as int],
            final(self).inputs() == old(self).inputs().update(old(self).position() as int, input),
            old(self).position() + 1 < BLOCK_SIZE ==> {
                &&& final(self).position() == old(self).position() + 1
                &&& final(self).outputs() == old(self).outputs()
            },
            old(self).position() + 1 == BLOCK_SIZE ==> {
                &&& final(self).position() == 0
                &&& exists|s: &[I]|
                    s@ == final(self).inputs() && #[trigger] call_ensures(processor, (s,), final(self).output_vec())
            },
    {
        self.input_buffer.set(self.pos, input);
        let res = self.output_buffer[self.pos];
        self.pos = self.pos + 1;
        if self.pos == BLOCK_SIZE {
            let block = self.input_buffer.as_slice();
            let produced = processor(block);
            let ghost b = block;
            assert(b@ == self.input_buffer@ && call_ensures(processor, (b,), produced));
            self.output_buffer = produced;
            self.pos = 0;
            assert(call_ensures(processor, (b,), self.output_vec()));
        }
        res
    }

    /// The vector of outputs.
    pub closed spec fn output_vec(self) -> Vec<O> {
        self.output_buffer
    }
}

/// `b1` and `r` are `b0` and what it returns after one call of [FrameBatcher::process_frame] handing in `x`
/// and `processor`: the output for this position of the previous block comes back, `x` is stored, and the
/// position moves on, wrapping to 0 at the end of a block, where the outputs become what `processor` gave
/// for the block's inputs.
pub open spec fn frame_step<I: Copy, O: Copy, F: Fn(&[I]) -> Vec<O>>(
    b0: FrameBatcher<I, O>,
    x: I,
    processor: F,
    b1: FrameBatcher<I, O>,
    r: O,
) -> bool {
    &&& b1.wf()
    &&& r == b0.outputs()[b0.position() as int]
    &&& b1.inputs() == b0.inputs().update(b0.position() as int, x)
    &&& b0.position() + 1 < BLOCK_SIZE ==> b1.position() == b0.position() + 1 && b1.outputs() == b0.outputs()
    &&& b0.position() + 1 == BLOCK_SIZE ==> {
        &&& b1.position() == 0
        &&& exists|s: &[I]| s@ == b1.inputs() && #[trigger] call_ensures(processor, (s,), b1.output_vec())
    }
}

/// The outputs of `b` are what `processor` gave for a block whose inputs are `inputs`.
pub open spec fn block_processed<I: Copy, O: Copy, F: Fn(&[I]) -> Vec<O>>(
    processor: F,
    inputs: Seq<I>,
    b: FrameBatcher<I, O>,
) -> bool {
    exists|s: &[I]| s@ == inputs && #[trigger] call_ensures(processor, (s,), b.output_vec())
}

proof fn lemma_batcher_upto<I: Copy, O: Copy, F: Fn(&[I]) -> Vec<O>>(
    bs: Seq<FrameBatcher<I, O>>,
    xs: Seq<I>,
    fs: Seq<F>,
    rs: Seq<O>,
    n: int,
)
    requires
        bs.len() == xs.len() + 1,
        rs.len() == xs.len(),
        fs.len() == xs.len(),
        bs[0].wf(),
        bs[0].position() == 0,
        forall|i: int| 0 <= i < xs.len() ==> #[trigger] frame_step(bs[i], xs[i], fs[i], bs[i + 1], rs[i]),
        0 <= n <= xs.len(),
    ensures
        bs[n].wf(),
        bs[n].position() == n % (BLOCK_SIZE as int),
        forall|j: int| 0 <= j < n % (BLOCK_SIZE as int) ==> #[trigger] bs[n].inputs()[j] == xs[n - n % (BLOCK_SIZE as int) + j],
        bs[n].outputs() == bs[n - n % (BLOCK_SIZE as int)].outputs(),
    decreases n,
{
    if n > 0 {
        lemma_batcher_upto(bs, xs, fs, rs, n - 1);
        let m = n - 1;
        assert(frame_step(bs[m], xs[m], fs[m], bs[m + 1], rs[m]));
        assert(m + 1 == n);
        let p = (n - 1) % (BLOCK_SIZE as int);
        if p + 1 < BLOCK_SIZE {
            assert(n % (BLOCK_SIZE as int) == p + 1);
        } else {
            assert(n % (BLOCK_SIZE as int) == 0);
        }
    }
}

/// Over any run of calls from a fresh block, call `i` gives back the output for its position as it stood when
/// the block holding call `i` began (for the first block, what the batcher was made with), the outputs change
/// only when a block is complete, and then become what that call's processor gave for exactly the last
/// [BLOCK_SIZE] frames handed in: outputs lag inputs by one block.
pub proof fn lemma_batcher_sequence<I: Copy, O: Copy, F: Fn(&[I]) -> Vec<O>>(
    bs: Seq<FrameBatcher<I, O>>,
    xs: Seq<I>,
    fs: Seq<F>,
    rs: Seq<O>,
)
    requires
        bs.len() == xs.len() + 1,
        rs.len() == xs.len(),
        fs.len() == xs.len(),
        bs[0].wf(),
        bs[0].position() == 0,
        forall|i: int| 0 <= i < xs.len() ==> #[trigger] frame_step(bs[i], xs[i], fs[i], bs[i + 1], rs[i]),
    ensures
        forall|i: int| 0 <= i <= xs.len() ==> #[trigger] bs[i].position() == i % (BLOCK_SIZE as int),
        forall|i: int|
            0 <= i < xs.len() ==> #[trigger] rs[i] == bs[i - i % (BLOCK_SIZE as int)].outputs()[i % (BLOCK_SIZE as int)],
        forall|i: int|
            0 <= i < xs.len() && (i + 1) % (BLOCK_SIZE as int) != 0 ==> #[trigger] bs[i + 1].outputs()
                == bs[i].outputs(),
        forall|i: int|
            0 <= i < xs.len() && (i + 1) % (BLOCK_SIZE as int) == 0 ==> #[trigger] bs[i + 1].inputs()
                == xs.subrange(i + 1 - BLOCK_SIZE, i + 1),
        forall|i: int|
            0 <= i < xs.len() && (i + 1) % (BLOCK_SIZE as int) == 0 ==> #[trigger] block_processed(
                fs[i],
                xs.subrange(i + 1 - BLOCK_SIZE, i + 1),
                bs[i + 1],
            ),
{
    assert forall|i: int| 0 <= i <= xs.len() implies #[trigger] bs[i].position() == i % (BLOCK_SIZE as int) by {
        lemma_batcher_upto(bs, xs, fs, rs, i);
    }
    assert forall|i: int| 0 <= i < xs.len() implies #[trigger] rs[i] == bs[i - i % (BLOCK_SIZE as int)].outputs()[i
        % (BLOCK_SIZE as int)] by {
        lemma_batcher_upto(bs, xs, fs, rs, i);
        assert(frame_step(bs[i], xs[i], fs[i], bs[i + 1], rs[i]));
    }
    assert forall|i: int| 0 <= i < xs.len() && (i + 1) % (BLOCK_SIZE as int) != 0 implies #[trigger] bs[i
        + 1].outputs() == bs[i].outputs() by {
        lemma_batcher_upto(bs, xs, fs, rs, i);
        assert(frame_step(bs[i], xs[i], fs[i], bs[i + 1], rs[i]));
        assert(i % (BLOCK_SIZE as int) + 1 < BLOCK_SIZE);
    }
    assert forall|i: int| 0 <= i < xs.len() && (i + 1) % (BLOCK_SIZE as int) == 0 implies #[trigger] bs[i
        + 1].inputs() == xs.subrange(i + 1 - BLOCK_SIZE, i + 1) by {
        lemma_batcher_upto(bs, xs, fs, rs, i);
        assert(frame_step(bs[i], xs[i], fs[i], bs[i + 1], rs[i]));
        assert(i % (BLOCK_SIZE as int) == BLOCK_SIZE - 1);
        assert(bs[i + 1].inputs() =~= xs.subrange(i + 1 - BLOCK_SIZE, i + 1));
    }
    assert forall|i: int| 0 <= i < xs.len() && (i + 1) % (BLOCK_SIZE as int) == 0 implies #[trigger] block_processed(
        fs[i],
        xs.subrange(i + 1 - BLOCK_SIZE, i + 1),
        bs[i + 1],
    ) by {
        lemma_batcher_upto(bs, xs, fs, rs, i);
        assert(frame_step(bs[i], xs[i], fs[i], bs[i + 1], rs[i]));
        assert(i % (BLOCK_SIZE as int) == BLOCK_SIZE - 1);
        assert(bs[i + 1].inputs() =~= xs.subrange(i + 1 - BLOCK_SIZE, i + 1));
    }
}

} // verus!
