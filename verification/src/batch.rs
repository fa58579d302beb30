//! Batches: the changes a user makes to a synthesizer, applied by the audio thread all at once, between two
//! blocks.
//!
//! The audio thread holds the programs and three tables: slots (values of type `S`), buses (`B`) and wavetables
//! (`W`).  A batch bumps the topology generation, applies its commands in order, then removes what was dropped:
//! at most [crate::removal_list::MAX_REMOVALS_PER_BATCH] programs, and as many entries of each table.
use crate::audio_thread::{
    batch_removals,
    block_ran,
    readers_of,
    repeated,
    select,
    writer_links,
    AudioThreadState,
    ProgramContainer,
    ProgramEntry,
};
use crate::drop_table::{
    removals,
    table_map,
    select_entries,
    table_insert,
    table_ids,
    table_insert_all,
    table_mark,
    table_replace,
    DropTable,
    TableEntry,
};
use crate::config::BLOCK_SIZE;
use crate::output_block::{silent_block, silent_frames, OutputBlock};
use crate::program::Program;
use crate::signal_maps::{applied, FrameFunction};
use crate::topology::{dependents, edge_total, has_execution_order, has_entry};
use vstd::prelude::*;

verus! {

/// One change made by a batch.
#[verifier::reject_recursive_types(T)]
pub enum Command<S, B, W, T> {
    /// Start running `program` under the identifier `id`, taking in the bus and wavetable containers that it
    /// brings and that no earlier mount took.
    Mount { id: u64, program: Program<T>, buses: Vec<(u64, B)>, wavetables: Vec<(u64, W)> },
    /// Register a slot with its first value.
    AllocateSlot { id: u64, value: S },
    /// Give a slot a new value, if the program it is set through is still mounted.
    ReplaceSlotValue { program: u64, slot: u64, value: S },
    /// The handle of a program was dropped.
    DropProgram(u64),
    /// The handle of a slot was dropped.
    DropSlot(u64),
    /// The handle of a bus was dropped.
    DropBus(u64),
    /// The handle of a wavetable was dropped.
    DropWavetable(u64),
}

/// What a batch removed, to be dropped away from the audio thread.
#[verifier::reject_recursive_types(T)]
pub struct Removed<S, B, W, T> {
    pub programs: Vec<ProgramEntry<T>>,
    pub slots: Vec<TableEntry<S>>,
    pub buses: Vec<TableEntry<B>>,
    pub wavetables: Vec<TableEntry<W>>,
}

/// `a1` is `a0` after `id` was mounted with `program`: the program is appended, it feeds the programs that
/// read a bus it writes, and each program writing a bus it reads now feeds it once per such bus.
pub open spec fn program_mounted<T>(a0: AudioThreadState<T>, id: u64, program: Program<T>, a1: AudioThreadState<T>) -> bool {
    &&& a1.wf()
    &&& a1.programs_view() == a0.programs_view().push(
        (id, (ProgramContainer { pending_drop: false, program })),
    )
    &&& dependents(a1.dependencies(), id) == readers_of(a0.programs_view(), program.outputs())
    &&& forall|s: u64|
        s != id ==> #[trigger] dependents(a1.dependencies(), s) == dependents(a0.dependencies(), s) + repeated(
            id,
            writer_links(a0.programs_view(), s, program.inputs()),
        )
    &&& a1.generation() == a0.generation()
    &&& a1.computed_generation() == a0.computed_generation()
    &&& a1.execution_order() == a0.execution_order()
    &&& a1.blocks() == a0.blocks()
}

/// `a1` is `a0` with the program `id`, if any, marked as dropped.
pub open spec fn program_marked<T>(a0: AudioThreadState<T>, id: u64, a1: AudioThreadState<T>) -> bool {
    &&& a1.wf()
    &&& a1.programs_view().len() == a0.programs_view().len()
    &&& forall|i: int|
        0 <= i < a0.programs_view().len() ==> {
            &&& #[trigger] a1.programs_view()[i].0 == a0.programs_view()[i].0
            &&& a1.programs_view()[i].1.program == a0.programs_view()[i].1.program
            &&& a1.programs_view()[i].1.pending_drop == (a0.programs_view()[i].1.pending_drop
                || a0.programs_view()[i].0 == id)
        }
    &&& a1.dependencies() == a0.dependencies()
    &&& a1.generation() == a0.generation()
    &&& a1.computed_generation() == a0.computed_generation()
    &&& a1.execution_order() == a0.execution_order()
    &&& a1.blocks() == a0.blocks()
}

/// The audio thread's state: the programs and the tables of slots, buses and wavetables.
#[verifier::reject_recursive_types(T)]
pub struct SynthesizerState<S, B, W, T> {
    programs: AudioThreadState<T>,
    slots: DropTable<S>,
    buses: DropTable<B>,
    wavetables: DropTable<W>,
}

impl<S, B, W, T> SynthesizerState<S, B, W, T> {
    /// The programs and their scheduling.
    pub closed spec fn programs_state(self) -> AudioThreadState<T> {
        self.programs
    }

    /// The slot table.
    pub closed spec fn slots_view(self) -> Seq<TableEntry<S>> {
        self.slots.entries_view()
    }

    /// The bus table.
    pub closed spec fn buses_view(self) -> Seq<TableEntry<B>> {
        self.buses.entries_view()
    }

    /// The wavetable table.
    pub closed spec fn wavetables_view(self) -> Seq<TableEntry<W>> {
        self.wavetables.entries_view()
    }

    /// Every part is well formed.
    pub closed spec fn wf(self) -> bool {
        &&& self.programs.wf()
        &&& self.slots.wf()
        &&& self.buses.wf()
        &&& self.wavetables.wf()
    }

    /// `s1` is `s0` after `cmd`, applied within a batch.  A mount under an identifier already in use changes
    /// nothing.
    pub open spec fn command_step(s0: Self, cmd: Command<S, B, W, T>, s1: Self) -> bool {
        match cmd {
            Command::Mount { id, program, buses, wavetables } => {
                if !s0.programs_state().program_ids().contains(id) && !has_entry(
                    s0.programs_state().dependencies(),
                    id,
                ) {
                    &&& program_mounted(s0.programs_state(), id, program, s1.programs_state())
                    &&& s1.slots_view() == s0.slots_view()
                    &&& s1.buses_view() == table_insert_all(s0.buses_view(), buses@)
                    &&& s1.wavetables_view() == table_insert_all(s0.wavetables_view(), wavetables@)
                } else {
                    s1 == s0
                }
            },
            Command::AllocateSlot { id, value } => {
                &&& s1.programs_state() == s0.programs_state()
                &&& s1.slots_view() == table_insert(s0.slots_view(), id, value)
                &&& s1.buses_view() == s0.buses_view()
                &&& s1.wavetables_view() == s0.wavetables_view()
            },
            Command::ReplaceSlotValue { program, slot, value } => {
                &&& s1.programs_state() == s0.programs_state()
                &&& s1.slots_view() == if s0.programs_state().program_ids().contains(program) {
                    table_replace(s0.slots_view(), slot, value)
                } else {
                    s0.slots_view()
                }
                &&& s1.buses_view() == s0.buses_view()
                &&& s1.wavetables_view() == s0.wavetables_view()
            },
            Command::DropProgram(id) => {
                &&& program_marked(s0.programs_state(), id, s1.programs_state())
                &&& s1.slots_view() == s0.slots_view()
                &&& s1.buses_view() == s0.buses_view()
                &&& s1.wavetables_view() == s0.wavetables_view()
            },
            Command::DropSlot(id) => {
                &&& s1.programs_state() == s0.programs_state()
                &&& s1.slots_view() == table_mark(s0.slots_view(), id)
                &&& s1.buses_view() == s0.buses_view()
                &&& s1.wavetables_view() == s0.wavetables_view()
            },
            Command::DropBus(id) => {
                &&& s1.programs_state() == s0.programs_state()
                &&& s1.slots_view() == s0.slots_view()
                &&& s1.buses_view() == table_mark(s0.buses_view(), id)
                &&& s1.wavetables_view() == s0.wavetables_view()
            },
            Command::DropWavetable(id) => {
                &&& s1.programs_state() == s0.programs_state()
                &&& s1.slots_view() == s0.slots_view()
                &&& s1.buses_view() == s0.buses_view()
                &&& s1.wavetables_view() == table_mark(s0.wavetables_view(), id)
            },
        }
    }

    /// `s1` is `s0` after each of `cmds` in order, within a batch whose order is not current.
    pub open spec fn commands_applied(s0: Self, cmds: Seq<Command<S, B, W, T>>, s1: Self) -> bool
        decreases cmds.len(),
    {
        if cmds.len() == 0 {
            s1 == s0
        } else {
            exists|mid: Self|
                #![trigger Self::command_step(mid, cmds.last(), s1)]
                Self::commands_applied(s0, cmds.drop_last(), mid) && Self::command_step(mid, cmds.last(), s1)
        }
    }

    /// No programs and empty tables.
    pub fn new() -> (r: Self)
        ensures
            r.wf(),
            r.programs_state().programs_view() == Seq::<ProgramEntry<T>>::empty(),
            r.programs_state().order_current(),
            r.programs_state().generation() == 0,
            r.slots_view() == Seq::<TableEntry<S>>::empty(),
            r.buses_view() == Seq::<TableEntry<B>>::empty(),
            r.wavetables_view() == Seq::<TableEntry<W>>::empty(),
    {
        SynthesizerState {
            programs: AudioThreadState::new(),
            slots: DropTable::new(),
            buses: DropTable::new(),
            wavetables: DropTable::new(),
        }
    }

    /// The slot table.
    pub fn slots(&self) -> (r: &DropTable<S>)
        ensures
            r.entries_view() == self.slots_view(),
    {
        &self.slots
    }

    /// The bus table.
    pub fn buses(&self) -> (r: &DropTable<B>)
        ensures
            r.entries_view() == self.buses_view(),
    {
        &self.buses
    }

    /// The wavetable table.
    pub fn wavetables(&self) -> (r: &DropTable<W>)
        ensures
            r.entries_view() == self.wavetables_view(),
    {
        &self.wavetables
    }

    /// The programs and their scheduling, to run blocks with.
    pub fn programs(&mut self) -> (r: &mut AudioThreadState<T>)
        ensures
            *r == old(self).programs_state(),
            final(self).programs_state() == *final(r),
            final(self).slots_view() == old(self).slots_view(),
            final(self).buses_view() == old(self).buses_view(),
            final(self).wavetables_view() == old(self).wavetables_view(),
            old(self).wf() && final(r).wf() ==> final(self).wf(),
    {
        &mut self.programs
    }

    /// Apply one batch, all between two blocks: bump the topology generation, apply `commands` in order, then
    /// remove what was dropped (at most [crate::removal_list::MAX_REMOVALS_PER_BATCH] programs, and as many
    /// entries of each table), handing it back to be dropped away from the audio thread.
    pub fn apply_batch(&mut self, commands: Vec<Command<S, B, W, T>>) -> (removed: Removed<S, B, W, T>)
        requires
            old(self).wf(),
            old(self).programs_state().generation() < u64::MAX,
        ensures
            final(self).wf(),
            exists|begun: Self, mid: Self|
                {
                    &&& begun.programs_state().programs_view() == old(self).programs_state().programs_view()
                    &&& begun.programs_state().dependencies() == old(self).programs_state().dependencies()
                    &&& begun.programs_state().generation() == old(self).programs_state().generation() + 1
                    &&& begun.programs_state().computed_generation()
                        == old(self).programs_state().computed_generation()
                    &&& begun.programs_state().execution_order() == old(self).programs_state().execution_order()
                    &&& begun.programs_state().blocks() == old(self).programs_state().blocks()
                    &&& begun.slots_view() == old(self).slots_view()
                    &&& begun.buses_view() == old(self).buses_view()
                    &&& begun.wavetables_view() == old(self).wavetables_view()
                    &&& #[trigger] Self::commands_applied(begun, commands@, mid)
                    &&& removed.programs@ == select(
                        mid.programs_state().programs_view(),
                        batch_removals(mid.programs_state().programs_view()),
                        false,
                    )
                    &&& final(self).programs_state().programs_view() == select(
                        mid.programs_state().programs_view(),
                        batch_removals(mid.programs_state().programs_view()),
                        true,
                    )
                    &&& final(self).programs_state().dependencies() == mid.programs_state().dependencies()
                    &&& final(self).programs_state().generation() == mid.programs_state().generation()
                    &&& final(self).programs_state().computed_generation()
                        == mid.programs_state().computed_generation()
                    &&& final(self).programs_state().execution_order() == mid.programs_state().execution_order()
                    &&& final(self).programs_state().blocks() == mid.programs_state().blocks()
                    &&& removed.slots@ == select_entries(mid.slots_view(), removals(mid.slots_view()), false)
                    &&& final(self).slots_view() == select_entries(mid.slots_view(), removals(mid.slots_view()), true)
                    &&& removed.buses@ == select_entries(mid.buses_view(), removals(mid.buses_view()), false)
                    &&& final(self).buses_view() == select_entries(mid.buses_view(), removals(mid.buses_view()), true)
                    &&& removed.wavetables@ == select_entries(
                        mid.wavetables_view(),
                        removals(mid.wavetables_view()),
                        false,
                    )
                    &&& final(self).wavetables_view() == select_entries(
                        mid.wavetables_view(),
                        removals(mid.wavetables_view()),
                        true,
                    )
                },
    {
        self.programs.begin_batch();
        let ghost begun = *self;
        let ghost all = commands@;
        let total = commands.len();
        let mut rest = commands;
        let mut k: usize = 0;
        while rest.len() > 0
            invariant
                self.wf(),
                !self.programs_state().order_current(),
                k <= all.len(),
                all.len() == total,
                rest@ == all.subrange(k as int, all.len() as int),
                Self::commands_applied(begun, all.take(k as int), *self),
            decreases rest.len(),
        {
            let cmd = rest.remove(0);
            let ghost before = *self;
            proof {
                assert(all.take(k + 1).drop_last() =~= all.take(k as int));
                assert(all.take(k + 1).last() == all[k as int]);
                assert(rest@ =~= all.subrange(k + 1, all.len() as int));
            }
            self.run_command(cmd);
            proof {
                assert(Self::command_step(before, all.take(k + 1).last(), *self));
                assert(Self::commands_applied(begun, all.take(k + 1), *self));
            }
            k = k + 1;
        }
        proof {
            assert(all.take(k as int) =~= all);
        }
        let ghost mid = *self;
        let programs = self.programs.remove_dropped_programs();
        let slots = self.slots.remove_dropped();
        let buses = self.buses.remove_dropped();
        let wavetables = self.wavetables.remove_dropped();
        Removed { programs, slots, buses, wavetables }
    }

    /// The blocks `blocks` were run from the states `states`, one after another, and the fill of `dest0`
    /// from `block0` handed them out as [SynthesizerState::fill_output] says, leaving `next`, `block1`,
    /// `dest1` and `filled`.
    pub open spec fn fill_run<U, F: Fn(T) -> U, R: Fn(B) -> B>(
        self,
        next: Self,
        block0: OutputBlock<T>,
        block1: OutputBlock<T>,
        dest0: Seq<U>,
        dest1: Seq<U>,
        filled: bool,
        convert: F,
        silence: T,
        reset_bus: R,
        states: Seq<AudioThreadState<T>>,
        blocks: Seq<Seq<(T, T)>>,
    ) -> bool where T: Copy {
        let r0 = block0.remaining_view() as int;
        let need = dest0.len() / 2;
        let nb = blocks.len() as int;
        &&& states.len() == nb + 1
        &&& states[0] == self.programs_state()
        &&& states[nb] == next.programs_state()
        &&& forall|j: int|
            0 <= j < nb ==> #[trigger] block_ran(states[j], states[j + 1], silent_block(silence), blocks[j])
        &&& next.buses_view() == table_map_times(
            self.buses_view(),
            reset_bus,
            (nb + if filled {
                0int
            } else {
                1int
            }) as nat,
        )
        &&& filled ==> {
            &&& nb == 0 ==> need <= r0
            &&& nb > 0 ==> r0 + (nb - 1) * BLOCK_SIZE < need <= r0 + nb * BLOCK_SIZE
            &&& forall|k: int|
                #![trigger dest1[k]]
                0 <= k < dest1.len() ==> dest1[k] == stream_sample(
                    block0.frames_view(),
                    BLOCK_SIZE - r0,
                    r0,
                    blocks,
                    convert,
                    k,
                )
            &&& block1.frames_view() == if nb == 0 {
                block0.frames_view()
            } else {
                blocks[nb - 1]
            }
            &&& block1.remaining_view() == r0 + nb * BLOCK_SIZE - need
        }
        &&& !filled ==> {
            &&& r0 + nb * BLOCK_SIZE < need
            &&& !next.programs_state().order_current()
            &&& !(edge_total(next.programs_state().dependencies()) <= usize::MAX
                && has_execution_order(
                next.programs_state().program_ids(),
                next.programs_state().dependencies(),
            ))
            &&& forall|k: int|
                #![trigger dest1[k]]
                0 <= k < dest1.len() ==> dest1[k] == if k < 2 * (r0 + nb * BLOCK_SIZE) {
                    stream_sample(block0.frames_view(), BLOCK_SIZE - r0, r0, blocks, convert, k)
                } else {
                    dest0[k]
                }
        }
    }

    /// `next`, `block1`, the destination `dest1` and `filled` are what a fill of `dest0` from `block0` leaves
    /// of this state: see [SynthesizerState::fill_output].
    pub open spec fn fill_outcome<U, F: Fn(T) -> U, R: Fn(B) -> B>(
        self,
        next: Self,
        block0: OutputBlock<T>,
        block1: OutputBlock<T>,
        dest0: Seq<U>,
        dest1: Seq<U>,
        filled: bool,
        convert: F,
        silence: T,
        reset_bus: R,
    ) -> bool where T: Copy {
        &&& next.wf()
        &&& block1.wf()
        &&& dest1.len() == dest0.len()
        &&& next.slots_view() == self.slots_view()
        &&& next.wavetables_view() == self.wavetables_view()
        &&& exists|states: Seq<AudioThreadState<T>>, blocks: Seq<Seq<(T, T)>>|
            #[trigger] self.fill_run(
                next,
                block0,
                block1,
                dest0,
                dest1,
                filled,
                convert,
                silence,
                reset_bus,
                states,
                blocks,
            )
    }

    /// Fill `dest`, interleaved stereo, from `block`: first the frames of the block not yet handed out, then,
    /// as many times as it takes, a new block: every bus is reset by `reset_bus`, and the programs run once,
    /// mixing their output into a silent block, which is then handed out.  Returns false, leaving the rest of
    /// `dest` as it was, when the programs cannot be run (they feed each other in a cycle, or a program is fed by
    /// one that is gone).
    ///
    /// The samples written are the stream of the block's leftover frames followed by the new blocks, so that
    /// filling a buffer in one call or in several gives the same samples.
    pub fn fill_output<U, F: Fn(T) -> U, R: Fn(B) -> B>(
        &mut self,
        block: &mut OutputBlock<T>,
        dest: &mut [U],
        convert: &FrameFunction<F, T, U>,
        silence: T,
        reset_bus: &FrameFunction<R, B, B>,
    ) -> (filled: bool) where T: Copy
        requires
            old(self).wf(),
            old(block).wf(),
            old(dest)@.len() % 2 == 0,
            old(self).programs_state().blocks() + old(dest)@.len() < u64::MAX,
        ensures
            old(self).fill_outcome(
                *final(self),
                *old(block),
                *final(block),
                old(dest)@,
                final(dest)@,
                filled,
                convert.closure(),
                silence,
                reset_bus.closure(),
            ),
    {
        let ghost frames0 = block.frames_view();
        let ghost r0 = block.remaining_view() as int;
        let ghost s0 = BLOCK_SIZE - r0;
        let ghost dest0 = dest@;
        let ghost buses0 = self.buses.entries_view();
        let ghost mut states: Seq<AudioThreadState<T>> = seq![self.programs];
        let ghost mut blocks: Seq<Seq<(T, T)>> = Seq::empty();
        let len = dest.len();
        let mut offset = block.read_into(dest, 0, convert);
        proof {
            assert forall|k: int| 0 <= k < len implies #[trigger] dest@[k] == if k < offset {
                stream_sample(frames0, s0, r0, blocks, convert.closure(), k)
            } else {
                dest0[k]
            } by {}
        }
        while offset < len
            invariant
                self.wf(),
                block.wf(),
                dest@.len() == len,
                len == dest0.len(),
                dest0 == old(dest)@,
                len % 2 == 0,
                offset % 2 == 0,
                offset <= len,
                frames0 == old(block).frames_view(),
                r0 == old(block).remaining_view(),
                s0 == BLOCK_SIZE - r0,
                0 <= r0 <= BLOCK_SIZE,
                offset < len ==> offset == 2 * (r0 + blocks.len() * BLOCK_SIZE) && block.remaining_view() == 0,
                offset == len ==> (blocks.len() == 0 ==> len / 2 <= r0),
                offset == len && blocks.len() > 0 ==> r0 + (blocks.len() - 1) * BLOCK_SIZE < len / 2 <= r0
                    + blocks.len() * BLOCK_SIZE,
                offset == len ==> block.remaining_view() == r0 + blocks.len() * BLOCK_SIZE - len / 2,
                block.frames_view() == if blocks.len() == 0 {
                    frames0
                } else {
                    blocks[blocks.len() - 1]
                },
                old(self).programs_state().blocks() + len < u64::MAX,
                self.programs.blocks() == old(self).programs_state().blocks() + blocks.len(),
                blocks.len() * 2 <= offset,
                states.len() == blocks.len() + 1,
                states[0] == old(self).programs_state(),
                states[blocks.len() as int] == self.programs,
                forall|j: int|
                    0 <= j < blocks.len() ==> #[trigger] block_ran(states[j], states[j + 1], silent_block(silence), blocks[j]),
                self.slots_view() == old(self).slots_view(),
                self.wavetables_view() == old(self).wavetables_view(),
                buses0 == old(self).buses_view(),
                self.buses_view() == table_map_times(buses0, reset_bus.closure(), blocks.len()),
                forall|k: int|
                    #![trigger dest@[k]]
                    0 <= k < len ==> dest@[k] == if k < offset {
                        stream_sample(frames0, s0, r0, blocks, convert.closure(), k)
                    } else {
                        dest0[k]
                    },
            decreases len - offset,
        {
            let mut mix = silent_frames(silence);
            self.buses.map_values(reset_bus);
            let ghost before_run = self.programs;
            if !self.programs.try_run_block(&mut mix) {
                proof {
                    assert(self.programs == before_run);
                    assert(old(self).fill_run(
                        *self,
                        *old(block),
                        *block,
                        old(dest)@,
                        dest@,
                        false,
                        convert.closure(),
                        silence,
                        reset_bus.closure(),
                        states,
                        blocks,
                    ));
                }
                return false;
            }
            let ghost nb = blocks.len();
            proof {
                states = states.push(self.programs);
                blocks = blocks.push(mix@);
                assert forall|j: int| 0 <= j < blocks.len() implies #[trigger] block_ran(
                    states[j],
                    states[j + 1],
                    silent_block(silence),
                    blocks[j],
                ) by {
                    if j < nb {
                        assert(states[j] == states.drop_last()[j]);
                    }
                }
            }
            block.set_block(mix);
            let ghost prev = dest@;
            let next = block.read_into(dest, offset, convert);
            proof {
                assert forall|k: int| 0 <= k < len implies #[trigger] dest@[k] == if k < next {
                    stream_sample(frames0, s0, r0, blocks, convert.closure(), k)
                } else {
                    dest0[k]
                } by {
                    if k < offset {
                        assert(prev[k] == stream_sample(frames0, s0, r0, blocks.drop_last(), convert.closure(), k));
                        if k >= 2 * r0 {
                            let m = k - 2 * r0;
                            assert(m / (2 * BLOCK_SIZE as int) < nb);
                            assert(blocks[m / (2 * BLOCK_SIZE as int)] == blocks.drop_last()[m / (2 * BLOCK_SIZE as int)]);
                        }
                    } else if k < next {
                        let m = k - 2 * r0;
                        assert(m == 2 * nb * BLOCK_SIZE + (k - offset));
                        assert(m / (2 * BLOCK_SIZE as int) == nb);
                        assert(m % (2 * BLOCK_SIZE as int) == k - offset);
                    }
                }
            }
            offset = next;
        }
        proof {
            assert(offset == len);
            assert(old(self).fill_run(
                *self,
                *old(block),
                *block,
                old(dest)@,
                dest@,
                true,
                convert.closure(),
                silence,
                reset_bus.closure(),
                states,
                blocks,
            ));
        }
        true
    }

    /// Apply one command within a batch.
    pub fn run_command(&mut self, cmd: Command<S, B, W, T>)
        requires
            old(self).wf(),
            !old(self).programs_state().order_current(),
        ensures
            final(self).wf(),
            !final(self).programs_state().order_current(),
            Self::command_step(*old(self), cmd, *final(self)),
    {
        match cmd {
            Command::Mount { id, program, buses, wavetables } => {
                if self.programs.is_fresh_id(id) {
                    self.programs.mount(id, program);
                    self.buses.insert_all(buses);
                    self.wavetables.insert_all(wavetables);
                }
            },
            Command::AllocateSlot { id, value } => {
                self.slots.insert(id, value);
            },
            Command::ReplaceSlotValue { program, slot, value } => {
                let ids = self.programs.program_id_list();
                if crate::program::vec_contains(&ids, program) {
                    self.slots.replace_value(slot, value);
                }
            },
            Command::DropProgram(id) => {
                self.programs.mark_pending_drop(id);
            },
            Command::DropSlot(id) => {
                self.slots.mark_pending_drop(id);
            },
            Command::DropBus(id) => {
                self.buses.mark_pending_drop(id);
            },
            Command::DropWavetable(id) => {
                self.wavetables.mark_pending_drop(id);
            },
        }
    }
}

/// The entries after `n` applications of `f` to every value.
pub open spec fn table_map_times<V, F: Fn(V) -> V>(entries: Seq<TableEntry<V>>, f: F, n: nat) -> Seq<TableEntry<V>>
    decreases n,
{
    if n == 0 {
        entries
    } else {
        table_map(table_map_times(entries, f, (n - 1) as nat), f)
    }
}

/// Channel `c` (0 left, 1 right) of `frame`.
pub open spec fn side<T>(frame: (T, T), c: int) -> T {
    if c == 0 {
        frame.0
    } else {
        frame.1
    }
}

/// Sample `k` of interleaved stereo output that first hands out `remaining` frames of `frames` from `start` on,
/// then the blocks of `blocks` one after the other, each sample converted by `convert`.
pub open spec fn stream_sample<T, U, F: Fn(T) -> U>(
    frames: Seq<(T, T)>,
    start: int,
    remaining: int,
    blocks: Seq<Seq<(T, T)>>,
    convert: F,
    k: int,
) -> U {
    if k < 2 * remaining {
        applied(convert, side(frames[start + k / 2], k % 2))
    } else {
        let m = k - 2 * remaining;
        applied(convert, side(blocks[m / (2 * BLOCK_SIZE as int)][(m % (2 * BLOCK_SIZE as int)) / 2], m % 2))
    }
}

/// Filling in pieces gives the same samples as filling at once: after a fill of `len1` samples that handed out
/// the blocks `blocks1` and left the block as [SynthesizerState::fill_output] says, the samples of a second fill
/// that hands out `blocks2` are the samples of one fill handing out `blocks1` then `blocks2`, from sample `len1`
/// on, for every sample the second fill hands out.
pub proof fn lemma_fill_in_pieces<T, U, F: Fn(T) -> U>(
    frames0: Seq<(T, T)>,
    r0: int,
    blocks1: Seq<Seq<(T, T)>>,
    blocks2: Seq<Seq<(T, T)>>,
    convert: F,
    len1: int,
    k: int,
)
    requires
        0 <= r0 <= BLOCK_SIZE,
        0 <= len1,
        len1 % 2 == 0,
        0 <= k < 2 * (r0 + blocks1.len() * BLOCK_SIZE - len1 / 2 + blocks2.len() * BLOCK_SIZE),
        blocks1.len() == 0 ==> len1 / 2 <= r0,
        blocks1.len() > 0 ==> r0 + (blocks1.len() - 1) * BLOCK_SIZE < len1 / 2 <= r0 + blocks1.len() * BLOCK_SIZE,
    ensures
        ({
            let nb1 = blocks1.len() as int;
            let frames1 = if nb1 == 0 {
                frames0
            } else {
                blocks1[nb1 - 1]
            };
            let r1 = r0 + nb1 * BLOCK_SIZE - len1 / 2;
            stream_sample(frames1, BLOCK_SIZE - r1, r1, blocks2, convert, k) == stream_sample(
                frames0,
                BLOCK_SIZE - r0,
                r0,
                blocks1 + blocks2,
                convert,
                len1 + k,
            )
        }),
{
    let nb1 = blocks1.len() as int;
    let r1 = r0 + nb1 * BLOCK_SIZE - len1 / 2;
    let b2 = 2 * BLOCK_SIZE as int;
    assert((len1 + k) / 2 == len1 / 2 + k / 2);
    assert((len1 + k) % 2 == k % 2);
    if nb1 == 0 {
        if k >= 2 * r1 {
            assert(blocks1 + blocks2 =~= blocks2);
        }
    } else {
        let m = len1 + k - 2 * r0;
        if k < 2 * r1 {
            assert(m == 2 * (nb1 - 1) * BLOCK_SIZE + 2 * (BLOCK_SIZE - r1) + k);
            assert(m / b2 == nb1 - 1);
            assert(m % b2 == 2 * (BLOCK_SIZE - r1) + k);
            assert((blocks1 + blocks2)[nb1 - 1] == blocks1[nb1 - 1]);
        } else {
            let m2 = k - 2 * r1;
            assert(m == nb1 * b2 + m2);
            assert(m / b2 == nb1 + m2 / b2);
            assert(m % b2 == m2 % b2);
            assert(m2 / b2 < blocks2.len());
            assert((blocks1 + blocks2)[nb1 + m2 / b2] == blocks2[m2 / b2]);
        }
    }
}

/// Two fills of buffers of the same length, from the same state and the same block, whose execution order is
/// current, both fill their buffer, write the same samples and leave the same frames: the audio depends on
/// nothing but the state, the block and how many samples are asked for (and, by [lemma_fill_in_pieces], not
/// on how a buffer is split into fills).  (When the order is not current, it is computed anew, and any
/// execution order may come out.)
pub proof fn lemma_same_state_same_fill<S, B, W, T: Copy, U, F: Fn(T) -> U, R: Fn(B) -> B>(
    s0: SynthesizerState<S, B, W, T>,
    s1: SynthesizerState<S, B, W, T>,
    s2: SynthesizerState<S, B, W, T>,
    block0: OutputBlock<T>,
    block1: OutputBlock<T>,
    block2: OutputBlock<T>,
    dest0: Seq<U>,
    dest1: Seq<U>,
    other0: Seq<U>,
    other1: Seq<U>,
    filled1: bool,
    filled2: bool,
    convert: F,
    silence: T,
    reset_bus: R,
)
    requires
        s0.fill_outcome(s1, block0, block1, dest0, dest1, filled1, convert, silence, reset_bus),
        s0.fill_outcome(s2, block0, block2, other0, other1, filled2, convert, silence, reset_bus),
        dest0.len() == other0.len(),
        s0.programs_state().order_current(),
    ensures
        filled1,
        filled2,
        dest1 == other1,
        block1.frames_view() == block2.frames_view(),
        block1.remaining_view() == block2.remaining_view(),
{
    let (states1, blocks1) = choose|states: Seq<AudioThreadState<T>>, blocks: Seq<Seq<(T, T)>>|
        s0.fill_run(s1, block0, block1, dest0, dest1, filled1, convert, silence, reset_bus, states, blocks);
    let (states2, blocks2) = choose|states: Seq<AudioThreadState<T>>, blocks: Seq<Seq<(T, T)>>|
        s0.fill_run(s2, block0, block2, other0, other1, filled2, convert, silence, reset_bus, states, blocks);
    let n1 = blocks1.len() as int;
    let n2 = blocks2.len() as int;
    assert(s0.fill_run(s1, block0, block1, dest0, dest1, filled1, convert, silence, reset_bus, states1, blocks1));
    assert(s0.fill_run(s2, block0, block2, other0, other1, filled2, convert, silence, reset_bus, states2, blocks2));
    if n1 > 0 {
        let j = n1 - 1;
        assert(block_ran(states1[j], states1[j + 1], silent_block(silence), blocks1[j]));
    }
    if n2 > 0 {
        let j = n2 - 1;
        assert(block_ran(states2[j], states2[j + 1], silent_block(silence), blocks2[j]));
    }
    assert(filled1 && filled2);
    assert(n1 == n2);
    if n1 > 0 {
        let mixes0 = Seq::new(n1 as nat, |j: int| silent_block(silence));
        assert forall|j: int| 0 <= j < blocks1.len() implies #[trigger] block_ran(
            states1[j],
            states1[j + 1],
            mixes0[j],
            blocks1[j],
        ) by {
            assert(block_ran(states1[j], states1[j + 1], silent_block(silence), blocks1[j]));
        }
        assert forall|j: int| 0 <= j < blocks2.len() implies #[trigger] block_ran(
            states2[j],
            states2[j + 1],
            mixes0[j],
            blocks2[j],
        ) by {
            assert(block_ran(states2[j], states2[j + 1], silent_block(silence), blocks2[j]));
        }
        crate::audio_thread::lemma_same_state_same_blocks(states1, states2, mixes0, blocks1, blocks2);
    } else {
        assert(blocks1 =~= blocks2);
    }
    assert forall|k: int| 0 <= k < dest1.len() implies dest1[k] == other1[k] by {
        assert(dest1[k] == stream_sample(
            block0.frames_view(),
            BLOCK_SIZE - block0.remaining_view() as int,
            block0.remaining_view() as int,
            blocks1,
            convert,
            k,
        ));
        assert(other1[k] == stream_sample(
            block0.frames_view(),
            BLOCK_SIZE - block0.remaining_view() as int,
            block0.remaining_view() as int,
            blocks2,
            convert,
            k,
        ));
    }
    assert(dest1 =~= other1);
}

/// Replacing a slot's value on behalf of a mounted program gives the slot `slot`, whatever its identifier, the
/// new value, keeping its mark, and leaves every other slot as it was; on behalf of a program that is not
/// mounted it changes no slot.  Programs, buses and wavetables are untouched either way.
pub proof fn lemma_replace_slot_value<S, B, W, T>(
    s0: SynthesizerState<S, B, W, T>,
    s1: SynthesizerState<S, B, W, T>,
    program: u64,
    slot: u64,
    value: S,
)
    requires
        s0.wf(),
        SynthesizerState::command_step(s0, Command::ReplaceSlotValue { program, slot, value }, s1),
    ensures
        s1.programs_state() == s0.programs_state(),
        s1.buses_view() == s0.buses_view(),
        s1.wavetables_view() == s0.wavetables_view(),
        s1.slots_view().len() == s0.slots_view().len(),
        !s0.programs_state().program_ids().contains(program) ==> s1.slots_view() == s0.slots_view(),
        forall|i: int|
            #![trigger s1.slots_view()[i]]
            0 <= i < s0.slots_view().len() ==> {
                &&& s1.slots_view()[i].id == s0.slots_view()[i].id
                &&& s1.slots_view()[i].pending_drop == s0.slots_view()[i].pending_drop
                &&& s0.slots_view()[i].id != slot ==> s1.slots_view()[i] == s0.slots_view()[i]
                &&& s0.slots_view()[i].id == slot && s0.programs_state().program_ids().contains(program)
                    ==> s1.slots_view()[i].value == value
            },
{
    crate::drop_table::lemma_table_replace(s0.slots_view(), slot, value);
}

/// Allocating a slot puts the value under its identifier, unmarked: in place of a slot with that identifier,
/// or at the end; every other slot stays as it was, and nothing else changes.
pub proof fn lemma_allocate_slot<S, B, W, T>(
    s0: SynthesizerState<S, B, W, T>,
    s1: SynthesizerState<S, B, W, T>,
    id: u64,
    value: S,
)
    requires
        s0.wf(),
        SynthesizerState::command_step(s0, Command::AllocateSlot { id, value }, s1),
    ensures
        s1.programs_state() == s0.programs_state(),
        s1.buses_view() == s0.buses_view(),
        s1.wavetables_view() == s0.wavetables_view(),
        table_ids(s1.slots_view()).no_duplicates(),
        exists|i: int|
            0 <= i < s1.slots_view().len() && s1.slots_view()[i] == (TableEntry { id, value, pending_drop: false }),
        forall|i: int|
            #![trigger s1.slots_view()[i]]
            0 <= i < s0.slots_view().len() && s0.slots_view()[i].id != id ==> s1.slots_view()[i]
                == s0.slots_view()[i],
        s1.slots_view().len() <= s0.slots_view().len() + 1,
{
    crate::drop_table::lemma_table_insert(s0.slots_view(), id, value);
    if table_ids(s0.slots_view()).contains(id) {
        let k = choose|k: int| 0 <= k < s0.slots_view().len() && table_ids(s0.slots_view())[k] == id;
        assert(s0.slots_view()[k].id == id);
        assert(s1.slots_view()[k] == (TableEntry { id, value, pending_drop: false }));
    } else {
        let n = s0.slots_view().len() as int;
        assert(s1.slots_view()[n] == (TableEntry { id, value, pending_drop: false }));
    }
}

/// Dropping a slot, bus or wavetable marks the entries with that identifier in its own table, and no others;
/// no value changes, nothing is removed, and the other tables and the programs are untouched.
pub proof fn lemma_drop_marks_only_its_entry<S, B, W, T>(
    s0: SynthesizerState<S, B, W, T>,
    s1: SynthesizerState<S, B, W, T>,
    cmd: Command<S, B, W, T>,
)
    requires
        SynthesizerState::command_step(s0, cmd, s1),
        cmd is DropSlot || cmd is DropBus || cmd is DropWavetable,
    ensures
        s1.programs_state() == s0.programs_state(),
        cmd matches Command::DropSlot(id) ==> {
            &&& s1.buses_view() == s0.buses_view() && s1.wavetables_view() == s0.wavetables_view()
            &&& s1.slots_view().len() == s0.slots_view().len()
            &&& forall|i: int|
                #![trigger s1.slots_view()[i]]
                0 <= i < s0.slots_view().len() ==> s1.slots_view()[i].id == s0.slots_view()[i].id
                    && s1.slots_view()[i].value == s0.slots_view()[i].value && s1.slots_view()[i].pending_drop == (
                s0.slots_view()[i].pending_drop || s0.slots_view()[i].id == id)
        },
        cmd matches Command::DropBus(id) ==> {
            &&& s1.slots_view() == s0.slots_view() && s1.wavetables_view() == s0.wavetables_view()
            &&& s1.buses_view().len() == s0.buses_view().len()
            &&& forall|i: int|
                #![trigger s1.buses_view()[i]]
                0 <= i < s0.buses_view().len() ==> s1.buses_view()[i].id == s0.buses_view()[i].id
                    && s1.buses_view()[i].value == s0.buses_view()[i].value && s1.buses_view()[i].pending_drop == (
                s0.buses_view()[i].pending_drop || s0.buses_view()[i].id == id)
        },
        cmd matches Command::DropWavetable(id) ==> {
            &&& s1.slots_view() == s0.slots_view() && s1.buses_view() == s0.buses_view()
            &&& s1.wavetables_view().len() == s0.wavetables_view().len()
            &&& forall|i: int|
                #![trigger s1.wavetables_view()[i]]
                0 <= i < s0.wavetables_view().len() ==> s1.wavetables_view()[i].id == s0.wavetables_view()[i].id
                    && s1.wavetables_view()[i].value == s0.wavetables_view()[i].value
                    && s1.wavetables_view()[i].pending_drop == (s0.wavetables_view()[i].pending_drop
                    || s0.wavetables_view()[i].id == id)
        },
{
    match cmd {
        Command::DropSlot(id) => crate::drop_table::lemma_table_mark(s0.slots_view(), id),
        Command::DropBus(id) => crate::drop_table::lemma_table_mark(s0.buses_view(), id),
        Command::DropWavetable(id) => crate::drop_table::lemma_table_mark(s0.wavetables_view(), id),
        _ => {},
    }
}

} // verus!
