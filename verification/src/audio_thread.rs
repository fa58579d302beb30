//! The programs of a synthesizer as the audio thread holds them: mounting, removal of dropped programs,
//! the order in which programs run, and running one block.
use crate::config::BLOCK_SIZE;
use crate::program::{advanced, fragments_output, Program};
use crate::removal_list::{
    removal_ids,
    removal_list_contains,
    removal_list_len,
    removal_list_new,
    removal_list_push,
    MAX_REMOVALS_PER_BATCH,
};
use arrayvec::ArrayVec;
use crate::signals::SignalExecutionContext;
use crate::topology::{
    dependents,
    edge_total,
    entry_of,
    has_entry,
    has_execution_order,
    is_execution_order,
    keys_distinct,
    lemma_dependents_absent,
    lemma_dependents_push,
    lemma_dependents_update,
    lemma_occurrences_contains,
    lemma_occurrences_push,
    occurrences,
    topological_order,
    Dependencies,
};
use vstd::prelude::*;

verus! {

broadcast use vstd::seq_lib::group_seq_properties;

/// A mounted program, with whether its handle has been dropped.
#[verifier::reject_recursive_types(T)]
pub struct ProgramContainer<T> {
    /// Set when the program's handle is dropped; the program stops running and is removed by the next batch.
    pub pending_drop: bool,
    /// The program.
    pub program: Program<T>,
}

/// An entry of the program table: the program's identifier and the program.
pub type ProgramEntry<T> = (u64, ProgramContainer<T>);

/// The identifiers of the programs in `progs` that read `bus`, in table order.
pub open spec fn ids_reading<T>(progs: Seq<ProgramEntry<T>>, bus: u64) -> Seq<u64>
    decreases progs.len(),
{
    if progs.len() == 0 {
        Seq::empty()
    } else {
        ids_reading(progs.drop_last(), bus) + if progs.last().1.program.inputs().contains(bus) {
            seq![progs.last().0]
        } else {
            Seq::empty()
        }
    }
}

/// The identifiers of the programs in `progs` that write `bus`, in table order.
pub open spec fn ids_writing<T>(progs: Seq<ProgramEntry<T>>, bus: u64) -> Seq<u64>
    decreases progs.len(),
{
    if progs.len() == 0 {
        Seq::empty()
    } else {
        ids_writing(progs.drop_last(), bus) + if progs.last().1.program.outputs().contains(bus) {
            seq![progs.last().0]
        } else {
            Seq::empty()
        }
    }
}

/// For each bus of `buses` in turn, the programs of `progs` that read it.
pub open spec fn readers_of<T>(progs: Seq<ProgramEntry<T>>, buses: Seq<u64>) -> Seq<u64>
    decreases buses.len(),
{
    if buses.len() == 0 {
        Seq::empty()
    } else {
        readers_of(progs, buses.drop_last()) + ids_reading(progs, buses.last())
    }
}

/// The number of buses of `buses` that the program `writer` of `progs` writes.
pub open spec fn writer_links<T>(progs: Seq<ProgramEntry<T>>, writer: u64, buses: Seq<u64>) -> nat
    decreases buses.len(),
{
    if buses.len() == 0 {
        0
    } else {
        writer_links(progs, writer, buses.drop_last()) + occurrences(ids_writing(progs, buses.last()), writer)
    }
}

/// The identifiers of the entries, in order.
pub open spec fn entry_ids<T>(progs: Seq<ProgramEntry<T>>) -> Seq<u64> {
    progs.map_values(|e: ProgramEntry<T>| e.0)
}

/// `count` copies of `x`.
pub open spec fn repeated(x: u64, count: nat) -> Seq<u64> {
    Seq::new(count, |_i: int| x)
}

/// The identifiers of the programs of `progs` whose handles were dropped, in table order.
pub open spec fn pending_ids<T>(progs: Seq<ProgramEntry<T>>) -> Seq<u64>
    decreases progs.len(),
{
    if progs.len() == 0 {
        Seq::empty()
    } else if progs.last().1.pending_drop {
        pending_ids(progs.drop_last()).push(progs.last().0)
    } else {
        pending_ids(progs.drop_last())
    }
}

/// The programs removed by one batch: the first [MAX_REMOVALS_PER_BATCH] whose handles were dropped.
pub open spec fn batch_removals<T>(progs: Seq<ProgramEntry<T>>) -> Seq<u64> {
    let p = pending_ids(progs);
    if p.len() <= MAX_REMOVALS_PER_BATCH {
        p
    } else {
        p.take(MAX_REMOVALS_PER_BATCH as int)
    }
}

/// The entries of `progs` whose identifiers are in `ids` (`keep` false) or not in `ids` (`keep` true), in
/// table order.
pub open spec fn select<T>(progs: Seq<ProgramEntry<T>>, ids: Seq<u64>, keep: bool) -> Seq<ProgramEntry<T>>
    decreases progs.len(),
{
    if progs.len() == 0 {
        Seq::empty()
    } else if ids.contains(progs.last().0) != keep {
        select(progs.drop_last(), ids, keep).push(progs.last())
    } else {
        select(progs.drop_last(), ids, keep)
    }
}

proof fn lemma_ids_reading_contains<T>(progs: Seq<ProgramEntry<T>>, j: int, b: u64)
    requires
        0 <= j < progs.len(),
        progs[j].1.program.inputs().contains(b),
    ensures
        ids_reading(progs, b).contains(progs[j].0),
    decreases progs.len(),
{
    if j == progs.len() - 1 {
        assert(ids_reading(progs, b)[ids_reading(progs, b).len() - 1] == progs[j].0);
    } else {
        assert(progs.drop_last()[j] == progs[j]);
        lemma_ids_reading_contains(progs.drop_last(), j, b);
    }
}

proof fn lemma_ids_writing_contains<T>(progs: Seq<ProgramEntry<T>>, j: int, b: u64)
    requires
        0 <= j < progs.len(),
        progs[j].1.program.outputs().contains(b),
    ensures
        ids_writing(progs, b).contains(progs[j].0),
    decreases progs.len(),
{
    if j == progs.len() - 1 {
        assert(ids_writing(progs, b)[ids_writing(progs, b).len() - 1] == progs[j].0);
    } else {
        assert(progs.drop_last()[j] == progs[j]);
        lemma_ids_writing_contains(progs.drop_last(), j, b);
    }
}

proof fn lemma_readers_contains<T>(progs: Seq<ProgramEntry<T>>, buses: Seq<u64>, j: int, b: u64)
    requires
        0 <= j < progs.len(),
        progs[j].1.program.inputs().contains(b),
        buses.contains(b),
    ensures
        readers_of(progs, buses).contains(progs[j].0),
    decreases buses.len(),
{
    if buses.last() == b {
        lemma_ids_reading_contains(progs, j, b);
    } else {
        let k = choose|k: int| 0 <= k < buses.len() && buses[k] == b;
        assert(buses.drop_last()[k] == b);
        lemma_readers_contains(progs, buses.drop_last(), j, b);
    }
}

proof fn lemma_writer_links_positive<T>(progs: Seq<ProgramEntry<T>>, buses: Seq<u64>, i: int, b: u64)
    requires
        0 <= i < progs.len(),
        progs[i].1.program.outputs().contains(b),
        buses.contains(b),
    ensures
        writer_links(progs, progs[i].0, buses) > 0,
    decreases buses.len(),
{
    if buses.last() == b {
        lemma_ids_writing_contains(progs, i, b);
        lemma_occurrences_contains(ids_writing(progs, b), progs[i].0);
    } else {
        let k = choose|k: int| 0 <= k < buses.len() && buses[k] == b;
        assert(buses.drop_last()[k] == b);
        lemma_writer_links_positive(progs, buses.drop_last(), i, b);
    }
}

proof fn lemma_select_from<T>(progs: Seq<ProgramEntry<T>>, ids: Seq<u64>, keep: bool)
    ensures
        forall|k: int|
            0 <= k < select(progs, ids, keep).len() ==> exists|i: int|
                0 <= i < progs.len() && progs[i] == #[trigger] select(progs, ids, keep)[k],
        entry_ids(progs).no_duplicates() ==> entry_ids(select(progs, ids, keep)).no_duplicates(),
    decreases progs.len(),
{
    if progs.len() > 0 {
        let rest = progs.drop_last();
        lemma_select_from(rest, ids, keep);
        let sel = select(progs, ids, keep);
        let rsel = select(rest, ids, keep);
        assert forall|k: int| 0 <= k < sel.len() implies exists|i: int|
            0 <= i < progs.len() && progs[i] == #[trigger] sel[k] by {
            if k < rsel.len() {
                assert(sel[k] == rsel[k]);
                let i = choose|i: int| 0 <= i < rest.len() && rest[i] == rsel[k];
                assert(progs[i] == sel[k]);
            } else {
                assert(progs[progs.len() - 1] == sel[k]);
            }
        }
        if entry_ids(progs).no_duplicates() {
            assert(entry_ids(rest).no_duplicates()) by {
                assert forall|a: int, b: int|
                    0 <= a < rest.len() && 0 <= b < rest.len() && a != b implies #[trigger] entry_ids(rest)[a]
                    != #[trigger] entry_ids(rest)[b] by {
                    assert(entry_ids(progs)[a] != entry_ids(progs)[b]);
                }
            }
            let sids = entry_ids(sel);
            assert forall|a: int, b: int|
                0 <= a < sel.len() && 0 <= b < sel.len() && a != b implies #[trigger] sids[a] != #[trigger] sids[b] by {
                if a < rsel.len() && b < rsel.len() {
                    assert(entry_ids(rsel)[a] != entry_ids(rsel)[b]);
                } else if a < rsel.len() || b < rsel.len() {
                    let k = if a < rsel.len() {
                        a
                    } else {
                        b
                    };
                    assert(sel[k] == rsel[k]);
                    let i = choose|i: int| 0 <= i < rest.len() && rest[i] == rsel[k];
                    assert(entry_ids(progs)[i] != entry_ids(progs)[progs.len()
                        - 1]);
                }
            }
        }
    }
}

/// A program that writes a bus runs before every other program that reads it: in the execution order of a state
/// whose order is current, the writer comes first.
pub proof fn lemma_writer_runs_before_reader<T>(state: AudioThreadState<T>, i: int, j: int, bus: u64)
    requires
        state.wf(),
        state.order_current(),
        0 <= i < state.programs_view().len(),
        0 <= j < state.programs_view().len(),
        i != j,
        state.programs_view()[i].1.program.outputs().contains(bus),
        state.programs_view()[j].1.program.inputs().contains(bus),
    ensures
        exists|a: int, c: int|
            0 <= a < c < state.execution_order().len() && state.execution_order()[a] == state.programs_view()[i].0
                && state.execution_order()[c] == state.programs_view()[j].0,
{
    let order = state.execution_order();
    let ids = state.program_ids();
    assert(ids[i] == state.programs_view()[i].0);
    assert(ids[j] == state.programs_view()[j].0);
    assert(order.contains(ids[i]));
    assert(order.contains(ids[j]));
    let a = choose|a: int| 0 <= a < order.len() && order[a] == ids[i];
    let c = choose|c: int| 0 <= c < order.len() && order[c] == ids[j];
    assert(dependents(state.dependencies(), order[a]).contains(order[c]));
    assert(a < c);
}

/// Whether `progs` holds a program `id` whose handle is still alive.
pub open spec fn is_live<T>(progs: Seq<ProgramEntry<T>>, id: u64) -> bool {
    exists|k: int| 0 <= k < progs.len() && #[trigger] progs[k].0 == id && !progs[k].1.pending_drop
}

/// The identifiers of `order` whose programs in `progs` are alive, in the order of `order`.
pub open spec fn live_in_order<T>(order: Seq<u64>, progs: Seq<ProgramEntry<T>>) -> Seq<u64>
    decreases order.len(),
{
    if order.len() == 0 {
        Seq::empty()
    } else if is_live(progs, order.last()) {
        live_in_order(order.drop_last(), progs).push(order.last())
    } else {
        live_in_order(order.drop_last(), progs)
    }
}

/// The program `id` in `progs`.
pub open spec fn entry_program<T>(progs: Seq<ProgramEntry<T>>, id: u64) -> Program<T> {
    progs[choose|k: int| 0 <= k < progs.len() && progs[k].0 == id].1.program
}

/// The block after the programs `ids` of `progs` run in order, each making of the block what it makes of it
/// in block `k` of a run whose blocks have the contexts `ctxs`, each taking what the earlier ones left.
pub open spec fn run_output<T>(
    ids: Seq<u64>,
    progs: Seq<ProgramEntry<T>>,
    ctxs: Seq<SignalExecutionContext>,
    k: nat,
    mix: Seq<(T, T)>,
) -> Seq<(T, T)>
    decreases ids.len(),
{
    if ids.len() == 0 {
        mix
    } else {
        fragments_output(
            entry_program(progs, ids.last()).fragments_view(),
            ctxs,
            k,
            run_output(ids.drop_last(), progs, ctxs, k, mix),
        )
    }
}

/// `a1` and the block `mix1` are `a0` and the block `mix0` after one block was run: the execution order is
/// current, every live program ran once, in that order, mixing its output into the block, its fragments
/// carrying on from where they were, and the block counter moved on.
pub open spec fn block_ran<T>(a0: AudioThreadState<T>, a1: AudioThreadState<T>, mix0: Seq<(T, T)>, mix1: Seq<
    (T, T),
>) -> bool {
    &&& a1.wf()
    &&& mix1.len() == BLOCK_SIZE
    &&& a1.order_current()
    &&& a0.order_current() ==> a1.execution_order() == a0.execution_order()
    &&& a1.programs_view().len() == a0.programs_view().len()
    &&& forall|i: int|
        #![trigger a1.programs_view()[i]]
        0 <= i < a0.programs_view().len() ==> {
            &&& a1.programs_view()[i].0 == a0.programs_view()[i].0
            &&& a1.programs_view()[i].1.pending_drop
                == a0.programs_view()[i].1.pending_drop
            &&& a0.programs_view()[i].1.program.links_unchanged(
                a1.programs_view()[i].1.program,
            )
            &&& a1.programs_view()[i].1.program.fragment_count()
                == a0.programs_view()[i].1.program.fragment_count()
            &&& a1.programs_view()[i].1.program.blocks_run()
                == a0.programs_view()[i].1.program.blocks_run() + if a0.programs_view()[i].1.pending_drop {
                0nat
            } else {
                1nat
            }
            &&& if a0.programs_view()[i].1.pending_drop {
                a1.programs_view()[i].1.program.fragments_view() == a0.programs_view()[i].1.program.fragments_view()
            } else {
                advanced(
                    a0.programs_view()[i].1.program.fragments_view(),
                    a1.programs_view()[i].1.program.fragments_view(),
                    SignalExecutionContext { time_in_blocks: a0.blocks() },
                )
            }
        }
    &&& a1.last_run() == live_in_order(a1.execution_order(), a0.programs_view())
    &&& mix1 == run_output(
        a1.last_run(),
        a0.programs_view(),
        seq![SignalExecutionContext { time_in_blocks: a0.blocks() }],
        0,
        mix0,
    )
    &&& a1.dependencies() == a0.dependencies()
    &&& a1.generation() == a0.generation()
    &&& a1.blocks() == a0.blocks() + 1
}

/// In a table whose identifiers are distinct, the program of the identifier at `i` is the one at `i`.
proof fn lemma_entry_program_at<T>(progs: Seq<ProgramEntry<T>>, i: int, id: u64)
    requires
        entry_ids(progs).no_duplicates(),
        0 <= i < progs.len(),
        progs[i].0 == id,
    ensures
        entry_program(progs, id) == progs[i].1.program,
{
    assert forall|j: int| 0 <= j < progs.len() && j != i implies #[trigger] progs[j].0 != id by {
        assert(entry_ids(progs)[j] == progs[j].0);
        assert(entry_ids(progs)[i] == progs[i].0);
    }
}

/// The programs carry on from block to block: once a block has run from `a0`, what the programs `ids`, alive
/// in `a0`, make of block `k` of a run whose blocks have the contexts `ctxs` is what they would have made of
/// it, counted from before that block, whose context is the block counter of `a0`.
pub proof fn lemma_programs_continue<T>(
    a0: AudioThreadState<T>,
    a1: AudioThreadState<T>,
    mix0: Seq<(T, T)>,
    mix1: Seq<(T, T)>,
    ids: Seq<u64>,
    ctxs: Seq<SignalExecutionContext>,
    k: nat,
    mix: Seq<(T, T)>,
)
    requires
        block_ran(a0, a1, mix0, mix1),
        forall|j: int| 0 <= j < ids.len() ==> is_live(a0.programs_view(), #[trigger] ids[j]),
        k < ctxs.len(),
    ensures
        run_output(ids, a1.programs_view(), ctxs, k, mix) == run_output(
            ids,
            a0.programs_view(),
            seq![SignalExecutionContext { time_in_blocks: a0.blocks() }] + ctxs,
            k + 1,
            mix,
        ),
    decreases ids.len(),
{
    if ids.len() > 0 {
        let ctx0 = SignalExecutionContext { time_in_blocks: a0.blocks() };
        let rest = ids.drop_last();
        assert forall|j: int| 0 <= j < rest.len() implies is_live(a0.programs_view(), #[trigger] rest[j]) by {
            assert(rest[j] == ids[j]);
        }
        lemma_programs_continue(a0, a1, mix0, mix1, rest, ctxs, k, mix);
        let id = ids.last();
        let p0 = a0.programs_view();
        let p1 = a1.programs_view();
        assert(is_live(p0, ids[ids.len() - 1]));
        let w = choose|w: int| 0 <= w < p0.len() && #[trigger] p0[w].0 == id && !p0[w].1.pending_drop;
        assert(p1[w].0 == id);
        assert(entry_ids(p0) =~= entry_ids(p1)) by {
            assert forall|q: int| 0 <= q < p0.len() implies #[trigger] entry_ids(p0)[q] == entry_ids(p1)[q] by {
                assert(p1[q].0 == p0[q].0);
            }
        }
        lemma_entry_program_at(p0, w, id);
        lemma_entry_program_at(p1, w, id);
        let m1 = run_output(rest, p1, ctxs, k, mix);
        crate::program::lemma_fragments_continue(
            p0[w].1.program.fragments_view(),
            p1[w].1.program.fragments_view(),
            ctx0,
            ctxs,
            k,
            m1,
        );
    }
}

/// The contexts of `n` blocks in a row, the first with the block counter `t`.
pub open spec fn block_contexts(t: u64, n: nat) -> Seq<SignalExecutionContext> {
    Seq::new(n, |i: int| SignalExecutionContext { time_in_blocks: (t + i) as u64 })
}

/// Tables with the same identifiers and the same dropped handles, place by place, have the same live
/// programs.
proof fn lemma_live_same<T>(p: Seq<ProgramEntry<T>>, q: Seq<ProgramEntry<T>>, order: Seq<u64>)
    requires
        p.len() == q.len(),
        forall|i: int|
            #![trigger q[i]]
            0 <= i < p.len() ==> q[i].0 == p[i].0 && q[i].1.pending_drop == p[i].1.pending_drop,
    ensures
        live_in_order(order, q) == live_in_order(order, p),
        forall|id: u64| #[trigger] is_live(q, id) == is_live(p, id),
    decreases order.len(),
{
    assert forall|id: u64| #[trigger] is_live(q, id) == is_live(p, id) by {
        if is_live(p, id) {
            let k = choose|k: int| 0 <= k < p.len() && #[trigger] p[k].0 == id && !p[k].1.pending_drop;
            assert(q[k].0 == id);
        }
        if is_live(q, id) {
            let k = choose|k: int| 0 <= k < q.len() && #[trigger] q[k].0 == id && !q[k].1.pending_drop;
            assert(q[k].0 == p[k].0);
        }
    }
    if order.len() > 0 {
        lemma_live_same(p, q, order.drop_last());
    }
}

/// Every program that [live_in_order] lists is alive.
proof fn lemma_listed_are_live<T>(order: Seq<u64>, p: Seq<ProgramEntry<T>>)
    ensures
        forall|j: int| 0 <= j < live_in_order(order, p).len() ==> is_live(p, #[trigger] live_in_order(order, p)[j]),
    decreases order.len(),
{
    if order.len() > 0 {
        lemma_listed_are_live(order.drop_last(), p);
        let rest = live_in_order(order.drop_last(), p);
        if is_live(p, order.last()) {
            assert forall|j: int| 0 <= j < rest.push(order.last()).len() implies is_live(
                p,
                #[trigger] rest.push(order.last())[j],
            ) by {
                if j < rest.len() {
                    assert(rest.push(order.last())[j] == rest[j]);
                }
            }
        }
    }
}

/// Along blocks run one after another from `states[0]`, up to `states[i]`: the block counter moved on by
/// one each block, the program table keeps its identifiers and dropped handles, and from the first block on
/// the execution order is current and stays that of the first block.
proof fn lemma_chain_facts<T>(
    states: Seq<AudioThreadState<T>>,
    mixes0: Seq<Seq<(T, T)>>,
    blocks: Seq<Seq<(T, T)>>,
    i: int,
)
    requires
        states.len() == blocks.len() + 1,
        mixes0.len() == blocks.len(),
        forall|j: int| 0 <= j < blocks.len() ==> #[trigger] block_ran(states[j], states[j + 1], mixes0[j], blocks[j]),
        0 <= i <= blocks.len(),
    ensures
        states[i].blocks() == states[0].blocks() + i,
        states[i].programs_view().len() == states[0].programs_view().len(),
        forall|q: int|
            #![trigger states[i].programs_view()[q]]
            0 <= q < states[0].programs_view().len() ==> states[i].programs_view()[q].0
                == states[0].programs_view()[q].0 && states[i].programs_view()[q].1.pending_drop
                == states[0].programs_view()[q].1.pending_drop,
        i >= 1 ==> states[i].order_current() && states[i].execution_order() == states[1].execution_order(),
    decreases i,
{
    if i > 0 {
        let h = i - 1;
        lemma_chain_facts(states, mixes0, blocks, h);
        assert(block_ran(states[h], states[h + 1], mixes0[h], blocks[h]));
        assert forall|q: int|
            #![trigger states[i].programs_view()[q]]
            0 <= q < states[0].programs_view().len() implies states[i].programs_view()[q].0
                == states[0].programs_view()[q].0 && states[i].programs_view()[q].1.pending_drop
                == states[0].programs_view()[q].1.pending_drop by {
            assert(states[h].programs_view()[q].0 == states[0].programs_view()[q].0);
            assert(states[h + 1].programs_view()[q].0 == states[h].programs_view()[q].0);
        }
    }
}

/// Along blocks run one after another, what live programs make of block `j` of the run, counted from
/// `states[i]`, is what they make of it counted from `states[0]`.
proof fn lemma_chain_continue<T>(
    states: Seq<AudioThreadState<T>>,
    mixes0: Seq<Seq<(T, T)>>,
    blocks: Seq<Seq<(T, T)>>,
    ids: Seq<u64>,
    j: int,
    i: int,
    mix: Seq<(T, T)>,
)
    requires
        states.len() == blocks.len() + 1,
        mixes0.len() == blocks.len(),
        forall|q: int| 0 <= q < blocks.len() ==> #[trigger] block_ran(states[q], states[q + 1], mixes0[q], blocks[q]),
        forall|q: int| 0 <= q < ids.len() ==> is_live(states[0].programs_view(), #[trigger] ids[q]),
        0 <= i <= j < blocks.len(),
    ensures
        ({
            let c = block_contexts(states[0].blocks(), (j + 1) as nat);
            run_output(ids, states[i].programs_view(), c.subrange(i, j + 1), (j - i) as nat, mix) == run_output(
                ids,
                states[0].programs_view(),
                c,
                j as nat,
                mix,
            )
        }),
    decreases i,
{
    let c = block_contexts(states[0].blocks(), (j + 1) as nat);
    if i == 0 {
        assert(c.subrange(0, j + 1) =~= c);
    } else {
        let h = i - 1;
        lemma_chain_continue(states, mixes0, blocks, ids, j, h, mix);
        lemma_chain_facts(states, mixes0, blocks, h);
        lemma_live_same(states[0].programs_view(), states[h].programs_view(), Seq::empty());
        assert forall|q: int| 0 <= q < ids.len() implies is_live(states[h].programs_view(), #[trigger] ids[q]) by {
            assert(is_live(states[0].programs_view(), ids[q]));
        }
        assert(block_ran(states[h], states[h + 1], mixes0[h], blocks[h]));
        lemma_programs_continue(
            states[h],
            states[h + 1],
            mixes0[h],
            blocks[h],
            ids,
            c.subrange(i, j + 1),
            (j - i) as nat,
            mix,
        );
        assert(seq![SignalExecutionContext { time_in_blocks: states[h].blocks() }] + c.subrange(i, j + 1)
            =~= c.subrange(h, j + 1));
        assert((j - i) as nat + 1 == (j - h) as nat);
    }
}

/// Blocks run one after another from `states[0]` are fixed by it and by the execution order of the first
/// block: block `j` is what the programs alive in `states[0]`, in that order, make of the block it started
/// from, as block `j` of a run whose blocks count on from the block counter of `states[0]`.  The programs
/// carry on from block to block, so nothing else of the states in between matters.
pub proof fn lemma_blocks_from_start<T>(
    states: Seq<AudioThreadState<T>>,
    mixes0: Seq<Seq<(T, T)>>,
    blocks: Seq<Seq<(T, T)>>,
)
    requires
        states.len() == blocks.len() + 1,
        mixes0.len() == blocks.len(),
        forall|j: int| 0 <= j < blocks.len() ==> #[trigger] block_ran(states[j], states[j + 1], mixes0[j], blocks[j]),
    ensures
        forall|j: int|
            0 <= j < blocks.len() ==> #[trigger] blocks[j] == run_output(
                live_in_order(states[1].execution_order(), states[0].programs_view()),
                states[0].programs_view(),
                block_contexts(states[0].blocks(), (j + 1) as nat),
                j as nat,
                mixes0[j],
            ),
{
    assert forall|j: int| 0 <= j < blocks.len() implies #[trigger] blocks[j] == run_output(
        live_in_order(states[1].execution_order(), states[0].programs_view()),
        states[0].programs_view(),
        block_contexts(states[0].blocks(), (j + 1) as nat),
        j as nat,
        mixes0[j],
    ) by {
        let order = states[1].execution_order();
        let ids = live_in_order(order, states[0].programs_view());
        lemma_chain_facts(states, mixes0, blocks, j);
        lemma_chain_facts(states, mixes0, blocks, j + 1);
        assert(block_ran(states[j], states[j + 1], mixes0[j], blocks[j]));
        lemma_live_same(states[0].programs_view(), states[j].programs_view(), order);
        lemma_listed_are_live(order, states[0].programs_view());
        lemma_chain_continue(states, mixes0, blocks, ids, j, j, mixes0[j]);
        let c = block_contexts(states[0].blocks(), (j + 1) as nat);
        assert(c.subrange(j, j + 1) =~= seq![SignalExecutionContext { time_in_blocks: states[j].blocks() }]);
    }
}

/// Two runs of blocks from the same state, whose execution order is current, starting each block from the same
/// block, give the same blocks.  (When the order is not current, it is computed anew, and any execution order
/// may come out.)
pub proof fn lemma_same_state_same_blocks<T>(
    states1: Seq<AudioThreadState<T>>,
    states2: Seq<AudioThreadState<T>>,
    mixes0: Seq<Seq<(T, T)>>,
    blocks1: Seq<Seq<(T, T)>>,
    blocks2: Seq<Seq<(T, T)>>,
)
    requires
        states1.len() == blocks1.len() + 1,
        states2.len() == blocks2.len() + 1,
        blocks1.len() == blocks2.len(),
        mixes0.len() == blocks1.len(),
        blocks1.len() > 0,
        states1[0] == states2[0],
        states1[0].order_current(),
        forall|j: int| 0 <= j < blocks1.len() ==> #[trigger] block_ran(states1[j], states1[j + 1], mixes0[j], blocks1[j]),
        forall|j: int| 0 <= j < blocks2.len() ==> #[trigger] block_ran(states2[j], states2[j + 1], mixes0[j], blocks2[j]),
    ensures
        blocks1 == blocks2,
{
    lemma_blocks_from_start(states1, mixes0, blocks1);
    lemma_blocks_from_start(states2, mixes0, blocks2);
    assert(block_ran(states1[0], states1[1], mixes0[0], blocks1[0]));
    assert(block_ran(states2[0], states2[1], mixes0[0], blocks2[0]));
    assert forall|j: int| 0 <= j < blocks1.len() implies blocks1[j] == blocks2[j] by {
        assert(blocks1[j] == run_output(
            live_in_order(states1[1].execution_order(), states1[0].programs_view()),
            states1[0].programs_view(),
            block_contexts(states1[0].blocks(), (j + 1) as nat),
            j as nat,
            mixes0[j],
        ));
        assert(blocks2[j] == run_output(
            live_in_order(states2[1].execution_order(), states2[0].programs_view()),
            states2[0].programs_view(),
            block_contexts(states2[0].blocks(), (j + 1) as nat),
            j as nat,
            mixes0[j],
        ));
    }
    assert(blocks1 =~= blocks2);
}

/// The state of the audio thread that decides which programs run and in which order.
#[verifier::reject_recursive_types(T)]
pub struct AudioThreadState<T> {
    programs: Vec<ProgramEntry<T>>,
    program_dependencies: Dependencies,
    topology_generation: u64,
    last_computed_generation: u64,
    program_execution_order: Vec<u64>,
    time_in_blocks: u64,
    run_log: Ghost<Seq<u64>>,
}

impl<T> AudioThreadState<T> {
    /// The program table, in mounting order.
    pub closed spec fn programs_view(self) -> Seq<ProgramEntry<T>> {
        self.programs@
    }

    /// The programs run by the last block, in the order they ran.
    pub closed spec fn last_run(self) -> Seq<u64> {
        self.run_log@
    }

    /// The identifiers of the mounted programs, in mounting order.
    pub open spec fn program_ids(self) -> Seq<u64> {
        entry_ids(self.programs_view())
    }

    /// The table from each program to the programs it feeds.
    pub closed spec fn dependencies(self) -> Seq<(u64, Vec<u64>)> {
        self.program_dependencies@
    }

    /// Bumped by every batch; the execution order is recomputed when it changes.
    pub closed spec fn generation(self) -> u64 {
        self.topology_generation
    }

    /// The generation for which the execution order was last computed.
    pub closed spec fn computed_generation(self) -> u64 {
        self.last_computed_generation
    }

    /// The order in which programs last ran.
    pub closed spec fn execution_order(self) -> Seq<u64> {
        self.program_execution_order@
    }

    /// Blocks computed so far.
    pub closed spec fn blocks(self) -> u64 {
        self.time_in_blocks
    }

    /// Whether the execution order belongs to the current programs.
    pub open spec fn order_current(self) -> bool {
        self.computed_generation() == self.generation()
    }

    /// Whenever a program writes a bus that another program reads, the table says the first feeds the second.
    pub open spec fn links_recorded(self) -> bool {
        forall|i: int, j: int, b: u64|
            0 <= i < self.programs_view().len() && 0 <= j < self.programs_view().len() && i != j
                && #[trigger] self.programs_view()[i].1.program.outputs().contains(b)
                && #[trigger] self.programs_view()[j].1.program.inputs().contains(b) ==> dependents(
                self.dependencies(),
                self.programs_view()[i].0,
            ).contains(self.programs_view()[j].0)
    }

    /// The invariant of the state.
    pub open spec fn wf(self) -> bool {
        &&& self.program_ids().no_duplicates()
        &&& keys_distinct(self.dependencies())
        &&& self.links_recorded()
        &&& self.computed_generation() <= self.generation()
        &&& self.order_current() ==> is_execution_order(
            self.program_ids(),
            self.dependencies(),
            self.execution_order(),
        )
    }

    /// No program, no dependency, nothing computed.
    pub fn new() -> (r: Self)
        ensures
            r.wf(),
            r.programs_view() == Seq::<ProgramEntry<T>>::empty(),
            r.dependencies() == Seq::<(u64, Vec<u64>)>::empty(),
            r.generation() == 0,
            r.order_current(),
            r.execution_order() == Seq::<u64>::empty(),
            r.blocks() == 0,
    {
        let r = AudioThreadState {
            programs: Vec::new(),
            program_dependencies: Vec::new(),
            topology_generation: 0,
            last_computed_generation: 0,
            program_execution_order: Vec::new(),
            time_in_blocks: 0,
            run_log: Ghost(Seq::empty()),
        };
        proof {
            assert(r.program_ids() =~= Seq::<u64>::empty());
        }
        r
    }

    /// Start a batch: the execution order is to be recomputed before the next block.
    pub fn begin_batch(&mut self)
        requires
            old(self).wf(),
            old(self).generation() < u64::MAX,
        ensures
            final(self).wf(),
            !final(self).order_current(),
            final(self).generation() == old(self).generation() + 1,
            final(self).programs_view() == old(self).programs_view(),
            final(self).dependencies() == old(self).dependencies(),
            final(self).execution_order() == old(self).execution_order(),
            final(self).computed_generation() == old(self).computed_generation(),
            final(self).blocks() == old(self).blocks(),
    {
        self.topology_generation = self.topology_generation + 1;
    }

    /// Mount `program` under the identifier `id`.  It runs from the next block on, after every program that
    /// writes a bus it reads and before every program that reads a bus it writes.
    pub fn mount(&mut self, id: u64, program: Program<T>)
        requires
            old(self).wf(),
            !old(self).order_current(),
            !old(self).program_ids().contains(id),
            !has_entry(old(self).dependencies(), id),
        ensures
            final(self).wf(),
            final(self).programs_view() == old(self).programs_view().push(
                (id, (ProgramContainer { pending_drop: false, program })),
            ),
            dependents(final(self).dependencies(), id) == readers_of(old(self).programs_view(), program.outputs()),
            forall|s: u64|
                s != id ==> #[trigger] dependents(final(self).dependencies(), s) == dependents(
                    old(self).dependencies(),
                    s,
                ) + repeated(id, writer_links(old(self).programs_view(), s, program.inputs())),
            final(self).generation() == old(self).generation(),
            final(self).computed_generation() == old(self).computed_generation(),
            final(self).execution_order() == old(self).execution_order(),
            final(self).blocks() == old(self).blocks(),
    {
        let ghost old_progs = self.programs@;
        let ghost old_deps = self.program_dependencies@;
        proof {
            assert forall|m: int| 0 <= m < old_progs.len() implies #[trigger] old_progs[m].0 != id by {
                assert(old(self).program_ids()[m] == old_progs[m].0);
            }
        }
        let mut bus_deps: Vec<u64> = Vec::new();
        let outs = program.output_bus_ids();
        let mut t: usize = 0;
        while t < outs.len()
            invariant
                outs@ == program.outputs(),
                t <= outs.len(),
                self.programs@ == old_progs,
                bus_deps@ == readers_of(old_progs, outs@.take(t as int)),
            decreases outs.len() - t,
        {
            let b = outs[t];
            let mut m: usize = 0;
            while m < self.programs.len()
                invariant
                    outs@ == program.outputs(),
                    t < outs.len(),
                    b == outs@[t as int],
                    m <= self.programs.len(),
                    self.programs@ == old_progs,
                    bus_deps@ == readers_of(old_progs, outs@.take(t as int)) + ids_reading(
                        old_progs.take(m as int),
                        b,
                    ),
                decreases self.programs.len() - m,
            {
                proof {
                    assert(old_progs.take(m + 1).drop_last() =~= old_progs.take(m as int));
                }
                if self.programs[m].1.program.reads_bus(b) {
                    bus_deps.push(self.programs[m].0);
                }
                m = m + 1;
            }
            proof {
                assert(old_progs.take(old_progs.len() as int) =~= old_progs);
                assert(outs@.take(t + 1).drop_last() =~= outs@.take(t as int));
            }
            t = t + 1;
        }
        proof {
            assert(outs@.take(outs@.len() as int) =~= outs@);
        }
        if bus_deps.len() > 0 {
            proof {
                lemma_dependents_push(self.program_dependencies@, (id, bus_deps));
            }
            self.program_dependencies.push((id, bus_deps));
        } else {
            proof {
                lemma_dependents_absent(old_deps, id);
            }
        }
        proof {
            assert forall|s: u64| s != id implies #[trigger] dependents(self.program_dependencies@, s) == dependents(
                old_deps,
                s,
            ) + repeated(id, writer_links(old_progs, s, program.inputs().take(0)) + occurrences(
                ids_writing(old_progs.take(0), 0),
                s,
            )) by {
                assert(program.inputs().take(0) =~= Seq::<u64>::empty());
                assert(old_progs.take(0) =~= Seq::<ProgramEntry<T>>::empty());
                assert(repeated(id, 0) =~= Seq::<u64>::empty());
                assert(dependents(old_deps, s) + Seq::<u64>::empty() =~= dependents(old_deps, s));
            }
        }
        let ins = program.input_bus_ids();
        let mut t: usize = 0;
        while t < ins.len()
            invariant
                ins@ == program.inputs(),
                outs@ == program.outputs(),
                t <= ins.len(),
                self.programs@ == old_progs,
                forall|m: int| 0 <= m < old_progs.len() ==> #[trigger] old_progs[m].0 != id,
                keys_distinct(self.program_dependencies@),
                dependents(self.program_dependencies@, id) == readers_of(old_progs, program.outputs()),
                forall|s: u64|
                    s != id ==> #[trigger] dependents(self.program_dependencies@, s) == dependents(old_deps, s)
                        + repeated(id, writer_links(old_progs, s, ins@.take(t as int))),
                self.topology_generation == old(self).topology_generation,
                self.last_computed_generation == old(self).last_computed_generation,
                self.program_execution_order == old(self).program_execution_order,
                self.time_in_blocks == old(self).time_in_blocks,
            decreases ins.len() - t,
        {
            let b = ins[t];
            let mut m: usize = 0;
            proof {
                assert(old_progs.take(0) =~= Seq::<ProgramEntry<T>>::empty());
            }
            while m < self.programs.len()
                invariant
                    ins@ == program.inputs(),
                    t < ins.len(),
                    b == ins@[t as int],
                    m <= self.programs.len(),
                    self.programs@ == old_progs,
                    forall|m: int| 0 <= m < old_progs.len() ==> #[trigger] old_progs[m].0 != id,
                    keys_distinct(self.program_dependencies@),
                    dependents(self.program_dependencies@, id) == readers_of(old_progs, program.outputs()),
                    forall|s: u64|
                        s != id ==> #[trigger] dependents(self.program_dependencies@, s) == dependents(old_deps, s)
                            + repeated(
                            id,
                            writer_links(old_progs, s, ins@.take(t as int)) + occurrences(
                                ids_writing(old_progs.take(m as int), b),
                                s,
                            ),
                        ),
                    self.topology_generation == old(self).topology_generation,
                    self.last_computed_generation == old(self).last_computed_generation,
                    self.program_execution_order == old(self).program_execution_order,
                    self.time_in_blocks == old(self).time_in_blocks,
                decreases self.programs.len() - m,
            {
                let ghost before = self.program_dependencies@;
                proof {
                    assert(old_progs.take(m + 1).drop_last() =~= old_progs.take(m as int));
                }
                if self.programs[m].1.program.writes_bus(b) {
                    let src = self.programs[m].0;
                    proof {
                        assert(ids_writing(old_progs.take(m + 1), b) =~= ids_writing(old_progs.take(m as int), b).push(
                            src,
                        ));
                        assert forall|s: u64| true implies occurrences(ids_writing(old_progs.take(m + 1), b), s)
                            == occurrences(ids_writing(old_progs.take(m as int), b), s) + if src == s {
                            1nat
                        } else {
                            0nat
                        } by {
                            lemma_occurrences_push(ids_writing(old_progs.take(m as int), b), src, s);
                        }
                    }
                    match entry_of(&self.program_dependencies, src) {
                        Some(e) => {
                            let mut entry = self.program_dependencies.remove(e);
                            entry.1.push(id);
                            self.program_dependencies.insert(e, entry);
                            proof {
                                assert(self.program_dependencies@ =~= before.update(e as int, entry));
                                lemma_dependents_update(before, e as int, entry);
                                crate::topology::lemma_dependents_entry(before, e as int);
                            }
                        },
                        None => {
                            let fresh = vec![id];
                            proof {
                                lemma_dependents_absent(before, src);
                                lemma_dependents_push(before, (src, fresh));
                            }
                            self.program_dependencies.push((src, fresh));
                        },
                    }
                    proof {
                        assert forall|s: u64| s != id implies #[trigger] dependents(
                            self.program_dependencies@,
                            s,
                        ) == dependents(old_deps, s) + repeated(
                            id,
                            writer_links(old_progs, s, ins@.take(t as int)) + occurrences(
                                ids_writing(old_progs.take(m + 1), b),
                                s,
                            ),
                        ) by {
                            let k = writer_links(old_progs, s, ins@.take(t as int)) + occurrences(
                                ids_writing(old_progs.take(m as int), b),
                                s,
                            );
                            if s == src {
                                assert(repeated(id, k).push(id) =~= repeated(id, k + 1));
                                assert(dependents(old_deps, s) + repeated(id, k + 1) =~= (dependents(old_deps, s)
                                    + repeated(id, k)).push(id));
                            }
                        }
                    }
                }
                m = m + 1;
            }
            proof {
                assert(old_progs.take(old_progs.len() as int) =~= old_progs);
                assert(ins@.take(t + 1).drop_last() =~= ins@.take(t as int));
            }
            t = t + 1;
        }
        proof {
            assert(ins@.take(ins@.len() as int) =~= ins@);
        }
        let ghost new_deps = self.program_dependencies@;
        self.programs.push((id, ProgramContainer { pending_drop: false, program }));
        proof {
            let progs = self.programs@;
            assert(self.program_ids() =~= old(self).program_ids().push(id));
            assert forall|i: int, j: int, b: u64|
                0 <= i < progs.len() && 0 <= j < progs.len() && i != j
                    && #[trigger] progs[i].1.program.outputs().contains(b)
                    && #[trigger] progs[j].1.program.inputs().contains(b) implies dependents(
                    new_deps,
                    progs[i].0,
                ).contains(progs[j].0) by {
                let n = old_progs.len() as int;
                if i < n && j < n {
                    assert(old_progs[i] == progs[i] && old_progs[j] == progs[j]);
                    assert(dependents(old_deps, progs[i].0).contains(progs[j].0));
                } else if i == n {
                    assert(old_progs[j] == progs[j]);
                    lemma_readers_contains(old_progs, program.outputs(), j, b);
                } else {
                    assert(old_progs[i] == progs[i]);
                    lemma_writer_links_positive(old_progs, program.inputs(), i, b);
                    let k = writer_links(old_progs, progs[i].0, program.inputs());
                    assert(repeated(id, k)[0] == id);
                    assert((dependents(old_deps, progs[i].0) + repeated(id, k))[dependents(
                        old_deps,
                        progs[i].0,
                    ).len() as int] == id);
                }
            }
        }
    }

    /// The identifiers of the mounted programs, in mounting order.
    pub fn program_id_list(&self) -> (r: Vec<u64>)
        ensures
            r@ == self.program_ids(),
    {
        let mut r: Vec<u64> = Vec::new();
        let mut m: usize = 0;
        while m < self.programs.len()
            invariant
                m <= self.programs.len(),
                r@ == entry_ids(self.programs@.take(m as int)),
            decreases self.programs.len() - m,
        {
            r.push(self.programs[m].0);
            proof {
                assert(entry_ids(self.programs@.take(m + 1)) =~= entry_ids(self.programs@.take(m as int)).push(self.programs@[m as int].0));
            }
            m = m + 1;
        }
        proof {
            assert(self.programs@.take(self.programs@.len() as int) =~= self.programs@);
        }
        r
    }

    /// The order in which programs last ran.
    pub fn execution_order_ids(&self) -> (r: &Vec<u64>)
        ensures
            r@ == self.execution_order(),
    {
        &self.program_execution_order
    }

    /// The number of batches begun.
    pub fn generation_value(&self) -> (r: u64)
        ensures
            r == self.generation(),
    {
        self.topology_generation
    }

    /// Blocks computed so far.
    pub fn blocks_computed(&self) -> (r: u64)
        ensures
            r == self.blocks(),
    {
        self.time_in_blocks
    }

    /// Whether the execution order belongs to the current programs.
    pub fn is_order_current(&self) -> (r: bool)
        ensures
            r == self.order_current(),
    {
        self.last_computed_generation == self.topology_generation
    }

    /// The programs the current batch removes: the first [MAX_REMOVALS_PER_BATCH] whose handles were dropped.
    pub fn dropped_program_ids(&self) -> (r: ArrayVec<u64, MAX_REMOVALS_PER_BATCH>)
        ensures
            removal_ids(r) == batch_removals(self.programs_view()),
    {
        let mut r = removal_list_new();
        let mut m: usize = 0;
        while m < self.programs.len()
            invariant
                m <= self.programs.len(),
                removal_ids(r) == batch_removals(self.programs@.take(m as int)),
            decreases self.programs.len() - m,
        {
            proof {
                assert(self.programs@.take(m + 1).drop_last() =~= self.programs@.take(m as int));
                let p = pending_ids(self.programs@.take(m as int));
                if p.len() >= MAX_REMOVALS_PER_BATCH {
                    assert(p.push(self.programs@[m as int].0).take(MAX_REMOVALS_PER_BATCH as int) =~= p.take(
                        MAX_REMOVALS_PER_BATCH as int,
                    ));
                    assert(p.len() == MAX_REMOVALS_PER_BATCH ==> p.take(MAX_REMOVALS_PER_BATCH as int) =~= p);
                }
            }
            if self.programs[m].1.pending_drop && removal_list_len(&r) < MAX_REMOVALS_PER_BATCH {
                removal_list_push(&mut r, self.programs[m].0);
            }
            m = m + 1;
        }
        proof {
            assert(self.programs@.take(self.programs@.len() as int) =~= self.programs@);
        }
        r
    }

    /// Remove the programs the batch removes (see [AudioThreadState::dropped_program_ids]), keeping the others in
    /// order, and hand the removed ones back so that they are dropped away from the audio thread.
    pub fn remove_dropped_programs(&mut self) -> (removed: Vec<ProgramEntry<T>>)
        requires
            old(self).wf(),
            !old(self).order_current(),
        ensures
            final(self).wf(),
            removed@ == select(old(self).programs_view(), batch_removals(old(self).programs_view()), false),
            final(self).programs_view() == select(
                old(self).programs_view(),
                batch_removals(old(self).programs_view()),
                true,
            ),
            final(self).dependencies() == old(self).dependencies(),
            final(self).generation() == old(self).generation(),
            final(self).computed_generation() == old(self).computed_generation(),
            final(self).execution_order() == old(self).execution_order(),
            final(self).blocks() == old(self).blocks(),
    {
        let ids = self.dropped_program_ids();
        let ghost orig = self.programs@;
        let mut taken: Vec<ProgramEntry<T>> = Vec::new();
        std::mem::swap(&mut taken, &mut self.programs);
        let n = taken.len();
        let mut kept: Vec<ProgramEntry<T>> = Vec::new();
        let mut removed: Vec<ProgramEntry<T>> = Vec::new();
        let mut i: usize = 0;
        while taken.len() > 0
            invariant
                n == orig.len(),
                i <= n,
                taken@ == orig.subrange(i as int, n as int),
                kept@ == select(orig.take(i as int), removal_ids(ids), true),
                removed@ == select(orig.take(i as int), removal_ids(ids), false),
            decreases taken.len(),
        {
            let e = taken.remove(0);
            proof {
                assert(e == orig[i as int]);
                assert(orig.take(i + 1).drop_last() =~= orig.take(i as int));
                assert(taken@ =~= orig.subrange(i + 1, n as int));
            }
            if removal_list_contains(&ids, e.0) {
                removed.push(e);
            } else {
                kept.push(e);
            }
            i = i + 1;
        }
        proof {
            assert(orig.take(n as int) =~= orig);
        }
        self.programs = kept;
        proof {
            lemma_select_from(orig, removal_ids(ids), true);
            let progs = self.programs@;
            assert(self.program_ids() == entry_ids(progs));
            assert(entry_ids(orig) == old(self).program_ids());
            assert forall|a: int, c: int, b: u64|
                0 <= a < progs.len() && 0 <= c < progs.len() && a != c
                    && #[trigger] progs[a].1.program.outputs().contains(b)
                    && #[trigger] progs[c].1.program.inputs().contains(b) implies dependents(
                    self.dependencies(),
                    progs[a].0,
                ).contains(progs[c].0) by {
                let ia = choose|ia: int| 0 <= ia < orig.len() && orig[ia] == progs[a];
                let ic = choose|ic: int| 0 <= ic < orig.len() && orig[ic] == progs[c];
                assert(self.program_ids()[a] != self.program_ids()[c]);
                assert(ia != ic);
                assert(orig[ia].1.program.outputs().contains(b));
                assert(orig[ic].1.program.inputs().contains(b));
            }
        }
        removed
    }

    /// Compute the order in which programs run, unless it is current.
    pub fn compute_program_topology(&mut self)
        requires
            old(self).wf(),
            !old(self).order_current() ==> has_execution_order(old(self).program_ids(), old(self).dependencies()),
            !old(self).order_current() ==> edge_total(old(self).dependencies()) <= usize::MAX,
        ensures
            final(self).wf(),
            final(self).order_current(),
            old(self).order_current() ==> final(self).execution_order() == old(self).execution_order(),
            final(self).programs_view() == old(self).programs_view(),
            final(self).dependencies() == old(self).dependencies(),
            final(self).generation() == old(self).generation(),
            final(self).blocks() == old(self).blocks(),
    {
        if self.last_computed_generation == self.topology_generation {
            return;
        }
        let ids = self.program_id_list();
        let order = match topological_order(&ids, &self.program_dependencies) {
            Some(order) => order,
            None => {
                proof {
                    assert(false);
                }
                Vec::new()
            },
        };
        self.program_execution_order = order;
        self.last_computed_generation = self.topology_generation;
    }

    /// Run one block: compute the execution order unless it is current, then run, in that order, every program
    /// whose handle is still alive.
    pub fn run_block(&mut self, mix: &mut Vec<(T, T)>)
        requires
            old(self).wf(),
            old(mix)@.len() == BLOCK_SIZE,
            !old(self).order_current() ==> has_execution_order(old(self).program_ids(), old(self).dependencies()),
            !old(self).order_current() ==> edge_total(old(self).dependencies()) <= usize::MAX,
            old(self).blocks() < u64::MAX,
        ensures
            final(self).wf(),
            final(self).order_current(),
            old(self).order_current() ==> final(self).execution_order() == old(self).execution_order(),
            final(self).programs_view().len() == old(self).programs_view().len(),
            forall|i: int|
                #![trigger final(self).programs_view()[i]]
                0 <= i < old(self).programs_view().len() ==> {
                    &&& final(self).programs_view()[i].0 == old(self).programs_view()[i].0
                    &&& final(self).programs_view()[i].1.pending_drop == old(self).programs_view()[i].1.pending_drop
                    &&& old(self).programs_view()[i].1.program.links_unchanged(final(self).programs_view()[i].1.program)
                    &&& final(self).programs_view()[i].1.program.fragment_count()
                        == old(self).programs_view()[i].1.program.fragment_count()
                    &&& final(self).programs_view()[i].1.program.blocks_run()
                        == old(self).programs_view()[i].1.program.blocks_run() + if old(
                        self,
                    ).programs_view()[i].1.pending_drop {
                        0nat
                    } else {
                        1nat
                    }
                    &&& if old(self).programs_view()[i].1.pending_drop {
                        final(self).programs_view()[i].1.program.fragments_view()
                            == old(self).programs_view()[i].1.program.fragments_view()
                    } else {
                        advanced(
                            old(self).programs_view()[i].1.program.fragments_view(),
                            final(self).programs_view()[i].1.program.fragments_view(),
                            SignalExecutionContext { time_in_blocks: old(self).blocks() },
                        )
                    }
                },
            final(self).last_run() == live_in_order(final(self).execution_order(), old(self).programs_view()),
            final(mix)@ == run_output(
                final(self).last_run(),
                old(self).programs_view(),
                seq![SignalExecutionContext { time_in_blocks: old(self).blocks() }],
                0,
                old(mix)@,
            ),
            final(mix)@.len() == BLOCK_SIZE,
            final(self).dependencies() == old(self).dependencies(),
            final(self).generation() == old(self).generation(),
            final(self).blocks() == old(self).blocks() + 1,
    {
        self.compute_program_topology();
        let ghost start = self.programs@;
        let ctx = SignalExecutionContext { time_in_blocks: self.time_in_blocks };
        self.run_log = Ghost(Seq::empty());
        let ghost mix0 = mix@;
        let mut n: usize = 0;
        while n < self.program_execution_order.len()
            invariant
                n <= self.program_execution_order.len(),
                self.programs@.len() == start.len(),
                start == old(self).programs@,
                self.program_dependencies@ == old(self).program_dependencies@,
                self.topology_generation == old(self).topology_generation,
                self.last_computed_generation == self.topology_generation,
                old(self).order_current() ==> self.program_execution_order@ == old(self).program_execution_order@,
                is_execution_order(entry_ids(start), self.program_dependencies@, self.program_execution_order@),
                self.time_in_blocks == old(self).time_in_blocks,
                self.time_in_blocks < u64::MAX,
                forall|k: int|
                    #![trigger self.programs@[k]]
                    0 <= k < start.len() ==> {
                        &&& self.programs@[k].0 == start[k].0
                        &&& self.programs@[k].1.pending_drop == start[k].1.pending_drop
                        &&& start[k].1.program.links_unchanged(self.programs@[k].1.program)
                        &&& self.programs@[k].1.program.fragment_count() == start[k].1.program.fragment_count()
                        &&& self.programs@[k].1.program.blocks_run() == start[k].1.program.blocks_run() + if !start[k].1.pending_drop
                            && self.program_execution_order@.take(n as int).contains(start[k].0) {
                            1nat
                        } else {
                            0nat
                        }
                    },
                entry_ids(start).no_duplicates(),
                self.run_log@ == live_in_order(self.program_execution_order@.take(n as int), start),
                mix@.len() == BLOCK_SIZE,
                mix@ == run_output(self.run_log@, start, seq![ctx], 0, mix0),
                ctx == (SignalExecutionContext { time_in_blocks: old(self).blocks() }),
                forall|k: int|
                    0 <= k < start.len() && (start[k].1.pending_drop || !self.program_execution_order@.take(
                        n as int,
                    ).contains(start[k].0)) ==> #[trigger] self.programs@[k].1.program == start[k].1.program,
                forall|k: int|
                    0 <= k < start.len() && !start[k].1.pending_drop && self.program_execution_order@.take(
                        n as int,
                    ).contains(start[k].0) ==> advanced(
                        start[k].1.program.fragments_view(),
                        #[trigger] self.programs@[k].1.program.fragments_view(),
                        ctx,
                    ),
            decreases self.program_execution_order.len() - n,
        {
            let id = self.program_execution_order[n];
            let mut k: usize = 0;
            while k < self.programs.len() && self.programs[k].0 != id
                invariant
                    k <= self.programs.len(),
                    forall|j: int| 0 <= j < k ==> #[trigger] self.programs@[j].0 != id,
                decreases self.programs.len() - k,
            {
                k = k + 1;
            }
            proof {
                let order = self.program_execution_order@;
                let t0 = order.take(n as int);
                let t1 = order.take(n + 1);
                assert(t1 =~= t0.push(id));
                assert(!t0.contains(id)) by {
                    if t0.contains(id) {
                        let j = choose|j: int| 0 <= j < t0.len() && #[trigger] t0[j] == id;
                        assert(order[j] == order[n as int]);
                    }
                }
                assert forall|j: int| 0 <= j < start.len() && start[j].0 != id implies (t1.contains(start[j].0)
                    <==> t0.contains(start[j].0)) by {
                    if t1.contains(start[j].0) {
                        let m = choose|m: int| 0 <= m < t1.len() && #[trigger] t1[m] == start[j].0;
                        assert(m < n);
                        assert(t0[m] == start[j].0);
                    }
                    if t0.contains(start[j].0) {
                        let m = choose|m: int| 0 <= m < t0.len() && #[trigger] t0[m] == start[j].0;
                        assert(t1[m] == start[j].0);
                    }
                }
                assert forall|j: int| 0 <= j < start.len() && j != k && k < start.len() && start[k as int].0 == id
                    implies start[j].0 != id by {
                    assert(entry_ids(start)[j] == start[j].0);
                    assert(entry_ids(start)[k as int] == start[k as int].0);
                }
                assert(t1.drop_last() =~= t0);
                assert(t1.last() == id);
                if k < start.len() {
                    assert(start[k as int].0 == id);
                    assert(is_live(start, id) == !start[k as int].1.pending_drop) by {
                        if is_live(start, id) {
                            let w = choose|w: int| 0 <= w < start.len() && #[trigger] start[w].0 == id
                                && !start[w].1.pending_drop;
                            assert(w == k);
                        }
                    }
                } else {
                    assert(!is_live(start, id)) by {
                        if is_live(start, id) {
                            let w = choose|w: int| 0 <= w < start.len() && #[trigger] start[w].0 == id
                                && !start[w].1.pending_drop;
                            assert(self.programs@[w].0 != id);
                        }
                    }
                }
            }
            if k < self.programs.len() && !self.programs[k].1.pending_drop {
                let ghost before = self.programs@;
                let ghost m = mix@;
                let mut entry = self.programs.remove(k);
                proof {
                    assert(entry.1.program == start[k as int].1.program);
                    assert(entry_program(start, id) == start[k as int].1.program) by {
                        let w = choose|w: int| 0 <= w < start.len() && start[w].0 == id;
                        assert(entry_ids(start)[w] == start[w].0);
                        assert(entry_ids(start)[k as int] == start[k as int].0);
                    }
                }
                entry.1.program.execute_block(&ctx, mix);
                self.programs.insert(k, entry);
                proof {
                    assert(self.programs@ =~= before.update(k as int, entry));
                    assert forall|j: int| 0 <= j < start.len() && j != k implies #[trigger] self.programs@[j]
                        == before[j] by {}
                    assert(self.programs@[k as int] == entry);
                    let log1 = self.run_log@.push(id);
                    assert(log1.drop_last() =~= self.run_log@);
                    assert(log1.last() == id);
                }
                self.run_log = Ghost(self.run_log@.push(id));
            }
            n = n + 1;
        }
        self.time_in_blocks = self.time_in_blocks + 1;
        proof {
            let order = self.program_execution_order@;
            assert(order.take(n as int) =~= order);
            assert forall|i: int| 0 <= i < start.len() implies order.take(n as int).contains(
                #[trigger] start[i].0,
            ) by {
                assert(entry_ids(start)[i] == start[i].0);
                assert(entry_ids(start).contains(start[i].0));
            }
            assert(self.program_ids() =~= old(self).program_ids());
            assert forall|i: int, j: int, b: u64|
                0 <= i < self.programs_view().len() && 0 <= j < self.programs_view().len() && i != j
                    && #[trigger] self.programs_view()[i].1.program.outputs().contains(b)
                    && #[trigger] self.programs_view()[j].1.program.inputs().contains(b) implies dependents(
                    self.dependencies(),
                    self.programs_view()[i].0,
                ).contains(self.programs_view()[j].0) by {
                assert(self.programs@[i].0 == start[i].0);
                assert(self.programs@[j].0 == start[j].0);
                assert(old(self).programs_view()[i].1.program.outputs().contains(b));
                assert(old(self).programs_view()[j].1.program.inputs().contains(b));
            }
        }
    }

    /// Whether `id` can identify a newly mounted program: no program has it and the table has no entry for it.
    pub fn is_fresh_id(&self, id: u64) -> (r: bool)
        ensures
            r == (!self.program_ids().contains(id) && !has_entry(self.dependencies(), id)),
    {
        let ids = self.program_id_list();
        if crate::program::vec_contains(&ids, id) {
            return false;
        }
        entry_of(&self.program_dependencies, id).is_none()
    }

    /// The number of edges in the dependency table, if it fits in a `usize`.
    pub fn edge_count(&self) -> (r: Option<usize>)
        ensures
            r matches Some(n) ==> n == edge_total(self.dependencies()),
            r is None ==> edge_total(self.dependencies()) > usize::MAX,
    {
        let mut total: usize = 0;
        let mut i: usize = 0;
        while i < self.program_dependencies.len()
            invariant
                i <= self.program_dependencies.len(),
                total == edge_total(self.program_dependencies@.take(i as int)),
            decreases self.program_dependencies.len() - i,
        {
            proof {
                assert(self.program_dependencies@.take(i + 1).drop_last() =~= self.program_dependencies@.take(
                    i as int,
                ));
                crate::topology::lemma_edge_total_prefix(self.program_dependencies@, i + 1);
            }
            let len = self.program_dependencies[i].1.len();
            match total.checked_add(len) {
                Some(t) => {
                    total = t;
                },
                None => {
                    return None;
                },
            }
            i = i + 1;
        }
        proof {
            assert(self.program_dependencies@.take(self.program_dependencies@.len() as int)
                =~= self.program_dependencies@);
        }
        Some(total)
    }

    /// Run one block as [AudioThreadState::run_block] does, when the execution order is current or can be
    /// computed; otherwise (a cycle, or a program fed by a program that is gone) change nothing and return false.
    pub fn try_run_block(&mut self, mix: &mut Vec<(T, T)>) -> (ran: bool)
        requires
            old(self).wf(),
            old(mix)@.len() == BLOCK_SIZE,
            old(self).blocks() < u64::MAX,
        ensures
            final(self).wf(),
            ran == (old(self).order_current() || (edge_total(old(self).dependencies()) <= usize::MAX
                && has_execution_order(old(self).program_ids(), old(self).dependencies()))),
            !ran ==> *final(self) == *old(self) && final(mix)@ == old(mix)@,
            final(mix)@.len() == BLOCK_SIZE,
            ran ==> block_ran(*old(self), *final(self), old(mix)@, final(mix)@),
    {
        if self.last_computed_generation != self.topology_generation {
            if self.edge_count().is_none() {
                return false;
            }
            let ids = self.program_id_list();
            match topological_order(&ids, &self.program_dependencies) {
                Some(order) => {
                    self.program_execution_order = order;
                    self.last_computed_generation = self.topology_generation;
                },
                None => {
                    return false;
                },
            }
        }
        self.run_block(mix);
        true
    }

    /// Mark the program `id` as dropped: it no longer runs, and the next batch removes it.
    pub fn mark_pending_drop(&mut self, id: u64)
        requires
            old(self).wf(),
        ensures
            final(self).wf(),
            final(self).programs_view().len() == old(self).programs_view().len(),
            forall|i: int|
                0 <= i < old(self).programs_view().len() ==> {
                    &&& #[trigger] final(self).programs_view()[i].0 == old(self).programs_view()[i].0
                    &&& final(self).programs_view()[i].1.program == old(self).programs_view()[i].1.program
                    &&& final(self).programs_view()[i].1.pending_drop == (old(
                        self,
                    ).programs_view()[i].1.pending_drop || old(self).programs_view()[i].0 == id)
                },
            final(self).dependencies() == old(self).dependencies(),
            final(self).generation() == old(self).generation(),
            final(self).computed_generation() == old(self).computed_generation(),
            final(self).execution_order() == old(self).execution_order(),
            final(self).blocks() == old(self).blocks(),
    {
        let ghost start = self.programs@;
        let mut i: usize = 0;
        while i < self.programs.len()
            invariant
                i <= self.programs.len(),
                self.programs@.len() == start.len(),
                start == old(self).programs@,
                self.program_dependencies == old(self).program_dependencies,
                self.topology_generation == old(self).topology_generation,
                self.last_computed_generation == old(self).last_computed_generation,
                self.program_execution_order == old(self).program_execution_order,
                self.time_in_blocks == old(self).time_in_blocks,
                forall|k: int|
                    #![trigger self.programs@[k]]
                    0 <= k < start.len() ==> {
                        &&& self.programs@[k].0 == start[k].0
                        &&& self.programs@[k].1.program == start[k].1.program
                        &&& self.programs@[k].1.pending_drop == (start[k].1.pending_drop || (k < i && start[k].0
                            == id))
                    },
            decreases self.programs.len() - i,
        {
            let ghost before = self.programs@;
            if self.programs[i].0 == id {
                let mut entry = self.programs.remove(i);
                entry.1.pending_drop = true;
                self.programs.insert(i, entry);
                proof {
                    assert(self.programs@ =~= before.update(i as int, entry));
                }
            }
            proof {
                assert forall|k: int| 0 <= k < start.len() && k != i implies #[trigger] self.programs@[k] == before[k] by {}
                assert(self.programs@[i as int].0 == start[i as int].0);
                assert(self.programs@[i as int].1.program == start[i as int].1.program);
                assert(self.programs@[i as int].1.pending_drop == (start[i as int].1.pending_drop || start[i as int].0 == id));
            }
            i = i + 1;
        }
        proof {
            assert(self.program_ids() =~= old(self).program_ids());
            assert forall|i: int, j: int, b: u64|
                0 <= i < self.programs_view().len() && 0 <= j < self.programs_view().len() && i != j
                    && #[trigger] self.programs_view()[i].1.program.outputs().contains(b)
                    && #[trigger] self.programs_view()[j].1.program.inputs().contains(b) implies dependents(
                    self.dependencies(),
                    self.programs_view()[i].0,
                ).contains(self.programs_view()[j].0) by {
                assert(self.programs@[i].0 == start[i].0);
                assert(self.programs@[j].0 == start[j].0);
                assert(old(self).programs_view()[i].1.program.outputs().contains(b));
                assert(old(self).programs_view()[j].1.program.inputs().contains(b));
            }
        }
    }
}

} // verus!
