//! Programs: collections of signal fragments that run together, with the buses, slots and wavetables they use.
use crate::config::BLOCK_SIZE;
use crate::error::Error;
use crate::signal_maps::{applied, FrameFunction};
use crate::signals::{
    execute_block,
    execute_block_collect,
    run_ticks,
    tick_outputs,
    IntoSignal,
    NullSignal,
    Signal,
    SignalExecutionContext,
};
use crate::slots::Slot;
use crate::unique_id::UniqueId;
use std::marker::PhantomData;
use vstd::prelude::*;

verus! {

/// A bus: a value of type `T` that programs write and read within a block.
pub struct BusHandle<T> {
    id: UniqueId,
    _phantom: PhantomData<T>,
}

impl<T> BusHandle<T> {
    /// The bus's identifier.
    pub closed spec fn id_view(self) -> UniqueId {
        self.id
    }

    /// A handle to the bus `id`.
    pub fn new(id: UniqueId) -> (r: Self)
        ensures
            r.id_view() == id,
    {
        BusHandle { id, _phantom: PhantomData }
    }

    /// The bus's identifier.
    pub fn id(&self) -> (r: UniqueId)
        ensures
            r == self.id_view(),
    {
        self.id
    }
}

/// How a program uses a bus.
#[derive(Clone, Copy, Debug, PartialEq, Eq, Structural)]
pub enum BusLinkType {
    /// The program reads it.
    Input,
    /// The program writes it.
    Output,
    /// The program both writes and reads it, within itself.
    Internal,
}

/// The record of a program's use of a bus.
pub struct BusLink<T> {
    bus_id: UniqueId,
    link_type: BusLinkType,
    program_id: UniqueId,
    _phantom: PhantomData<T>,
}

impl<T> BusLink<T> {
    /// The bus.
    pub closed spec fn bus(self) -> UniqueId {
        self.bus_id
    }

    /// How the bus is used.
    pub closed spec fn kind(self) -> BusLinkType {
        self.link_type
    }

    /// The program that uses the bus.
    pub closed spec fn program(self) -> UniqueId {
        self.program_id
    }

    /// The program that uses the bus.
    pub fn program_id(&self) -> (r: UniqueId)
        ensures
            r == self.program(),
    {
        self.program_id
    }

    /// The bus.
    pub fn bus_id(&self) -> (r: UniqueId)
        ensures
            r == self.bus(),
    {
        self.bus_id
    }

    /// How the bus is used.
    pub fn link_type(&self) -> (r: BusLinkType)
        ensures
            r == self.kind(),
    {
        self.link_type
    }
}

/// A handle to a wavetable.
pub struct WaveTableHandle {
    id: UniqueId,
}

impl WaveTableHandle {
    /// The wavetable's identifier.
    pub closed spec fn id_view(self) -> UniqueId {
        self.id
    }

    /// A handle to the wavetable `id`.
    pub fn new(id: UniqueId) -> (r: Self)
        ensures
            r.id_view() == id,
    {
        WaveTableHandle { id }
    }

    /// The wavetable's identifier.
    pub fn id(&self) -> (r: UniqueId)
        ensures
            r == self.id_view(),
    {
        self.id
    }
}

/// A chain of signals under construction, starting from nothing.
pub struct Chain<S> {
    /// The description of the signal built so far.
    pub inner: S,
}

/// A part of a program that runs on its own, one block at a time, mixing what it outputs into a block of
/// stereo frames of type `(T, T)`.
pub trait ProgramFragment<T> {
    /// What this fragment makes of the block `mix` in block `k` of a run whose blocks have the contexts
    /// `ctxs`, block 0 being the next one it runs.
    spec fn output_at(&self, ctxs: Seq<SignalExecutionContext>, k: nat, mix: Seq<(T, T)>) -> Seq<(T, T)>;

    /// Run one block, mixing the output into `mix`.  The fragment carries on from where it was: what it does
    /// in the blocks after this one is what it would have done in them, counted from before this one.
    fn execute_block(&mut self, ctx: &SignalExecutionContext, mix: &mut Vec<(T, T)>)
        requires
            old(mix)@.len() == BLOCK_SIZE,
        ensures
            final(mix)@ == old(self).output_at(seq![*ctx], 0, old(mix)@),
            final(mix)@.len() == BLOCK_SIZE,
            forall|ctxs: Seq<SignalExecutionContext>, k: nat, m: Seq<(T, T)>|
                k < ctxs.len() ==> #[trigger] final(self).output_at(ctxs, k, m) == old(self).output_at(
                    seq![*ctx] + ctxs,
                    k + 1,
                    m,
                ),
    ;
}

/// A fragment as a program holds it.
#[verifier::reject_recursive_types(T)]
pub struct FragmentBox<T> {
    fragment: Box<dyn ProgramFragment<T>>,
}

impl<T> FragmentBox<T> {
    /// What the fragment makes of `mix` in block `k` of a run whose blocks have the contexts `ctxs`: see
    /// [ProgramFragment::output_at].
    pub closed spec fn output_at(self, ctxs: Seq<SignalExecutionContext>, k: nat, mix: Seq<(T, T)>) -> Seq<(T, T)> {
        self.fragment.output_at(ctxs, k, mix)
    }
}

/// The state of a signal without input, starting from `state`, after the blocks `0..k` of a run whose blocks
/// have the contexts `ctxs`: each block starts, then ticks once per frame.
pub open spec fn state_after<S: Signal<Input = ()>>(ctxs: Seq<SignalExecutionContext>, k: nat, state: S::State) -> S::State
    decreases k,
{
    if k == 0 {
        state
    } else {
        let prev = state_after::<S>(ctxs, (k - 1) as nat, state);
        run_ticks::<S>(ctxs[k - 1], S::block_start_spec(ctxs[k - 1], prev), BLOCK_SIZE as nat)
    }
}

/// Running one block with the context `ctx` first, then the blocks `0..k` of `ctxs`, is running the blocks
/// `0..k + 1` of `ctx` followed by `ctxs`.
pub proof fn lemma_state_after_shift<S: Signal<Input = ()>>(
    ctx: SignalExecutionContext,
    ctxs: Seq<SignalExecutionContext>,
    k: nat,
    state: S::State,
)
    requires
        k <= ctxs.len(),
    ensures
        state_after::<S>(ctxs, k, run_ticks::<S>(ctx, S::block_start_spec(ctx, state), BLOCK_SIZE as nat))
            == state_after::<S>(seq![ctx] + ctxs, k + 1, state),
    decreases k,
{
    let all = seq![ctx] + ctxs;
    let first = run_ticks::<S>(ctx, S::block_start_spec(ctx, state), BLOCK_SIZE as nat);
    assert(all[0] == ctx);
    assert(state_after::<S>(all, 0, state) == state);
    assert(state_after::<S>(all, 1, state) == first);
    if k > 0 {
        lemma_state_after_shift::<S>(ctx, ctxs, (k - 1) as nat, state);
        assert(all[k as int] == ctxs[k - 1]);
        let prev = state_after::<S>(all, k, state);
        assert(state_after::<S>(ctxs, (k - 1) as nat, first) == prev);
        assert(state_after::<S>(all, k + 1, state) == run_ticks::<S>(
            all[k as int],
            S::block_start_spec(all[k as int], prev),
            BLOCK_SIZE as nat,
        ));
    }
}

/// A signal without input, with its state, run as a fragment; its output is dropped.
struct SignalFragment<S: Signal<Input = ()>> {
    signal: S,
    state: S::State,
}

impl<S: Signal<Input = ()>> SignalFragment<S> {
    /// The state of the signal.
    pub closed spec fn signal_state(self) -> S::State {
        self.state
    }
}

impl<S: Signal<Input = ()>, T> ProgramFragment<T> for SignalFragment<S> {
    /// Nothing is mixed in.
    closed spec fn output_at(&self, ctxs: Seq<SignalExecutionContext>, k: nat, mix: Seq<(T, T)>) -> Seq<(T, T)> {
        mix
    }

    /// Run one block of the signal: its state becomes that after the start of the block and one tick per
    /// frame.
    fn execute_block(&mut self, ctx: &SignalExecutionContext, mix: &mut Vec<(T, T)>)
        ensures
            final(self).signal_state() == run_ticks::<S>(
                *ctx,
                S::block_start_spec(*ctx, old(self).signal_state()),
                BLOCK_SIZE as nat,
            ),
    {
        execute_block::<S>(ctx, &mut self.state);
    }
}

/// The fragment running the signal `signal`, without input, from the state `state`, its output dropped.
pub closed spec fn signal_fragment<S: Signal<Input = ()> + 'static, T>(signal: S, state: S::State) -> FragmentBox<T> where
    S::State: 'static,
 {
    FragmentBox { fragment: Box::new(SignalFragment::<S> { signal, state }) }
}

/// The block `mix` with each frame `i` merged, by `merge`, with output `i` of `outs`.
pub open spec fn mixed<T, F: Fn(((T, T), (T, T))) -> (T, T)>(mix: Seq<(T, T)>, outs: Seq<(T, T)>, merge: F) -> Seq<
    (T, T),
> {
    Seq::new(mix.len(), |i: int| applied(merge, (mix[i], outs[i])))
}

/// What a fragment sending the stereo signal `S`, in the state `state`, to the device, merging by `merge`,
/// makes of `mix` in block `k` of a run whose blocks have the contexts `ctxs`: each frame merged with the
/// output of the signal for that frame, the signal having run the blocks before.
pub open spec fn audio_output_at<S: Signal<Input = (), Output = (T, T)>, F: Fn(((T, T), (T, T))) -> (T, T), T>(
    state: S::State,
    merge: F,
    ctxs: Seq<SignalExecutionContext>,
    k: nat,
    mix: Seq<(T, T)>,
) -> Seq<(T, T)> {
    let ctx = ctxs[k as int];
    mixed(
        mix,
        tick_outputs::<S>(ctx, S::block_start_spec(ctx, state_after::<S>(ctxs, k, state)), BLOCK_SIZE as nat),
        merge,
    )
}

/// Description of a signal whose stereo output goes to the audio device: every frame it outputs is merged
/// into the output block by `merge` (for example, added to what is there).
#[verifier::reject_recursive_types(T)]
pub struct AudioOutputSignalConfig<S, F: Fn(((T, T), (T, T))) -> (T, T), T> {
    parent: S,
    merge: FrameFunction<F, ((T, T), (T, T)), (T, T)>,
}

impl<S, F: Fn(((T, T), (T, T))) -> (T, T), T> AudioOutputSignalConfig<S, F, T> {
    /// Send the output of `parent` to the audio device, merging each frame into the block by `merge`.
    pub fn new(parent: S, merge: FrameFunction<F, ((T, T), (T, T)), (T, T)>) -> (r: Self)
        ensures
            r.parent_view() == parent,
            r.merge_view() == merge.closure(),
            r.merge_function() == merge,
    {
        AudioOutputSignalConfig { parent, merge }
    }

    /// The description of the signal sent to the device.
    pub closed spec fn parent_view(self) -> S {
        self.parent
    }

    /// How frames are merged into the block.
    pub closed spec fn merge_view(self) -> F {
        self.merge.closure()
    }

    /// The function merging frames into the block.
    pub closed spec fn merge_function(self) -> FrameFunction<F, ((T, T), (T, T)), (T, T)> {
        self.merge
    }
}

/// The fragment sending the stereo signal `signal`, from the state `state`, to the device, merging by `merge`.
pub closed spec fn audio_fragment<
    S: Signal<Input = (), Output = (T, T)> + 'static,
    F: Fn(((T, T), (T, T))) -> (T, T) + 'static,
    T: Copy + 'static,
>(signal: S, state: S::State, merge: FrameFunction<F, ((T, T), (T, T)), (T, T)>) -> FragmentBox<T> where
    S::State: 'static,
 {
    FragmentBox { fragment: Box::new(AudioOutputSignal::<S, F, T> { signal, state, merge }) }
}

/// A signal sending its stereo output to the audio device, with its state and its merge.
#[verifier::reject_recursive_types(T)]
pub struct AudioOutputSignal<S: Signal<Input = (), Output = (T, T)>, F: Fn(((T, T), (T, T))) -> (T, T), T> {
    signal: S,
    state: S::State,
    merge: FrameFunction<F, ((T, T), (T, T)), (T, T)>,
}

impl<S: Signal<Input = (), Output = (T, T)>, F: Fn(((T, T), (T, T))) -> (T, T), T: Copy> ProgramFragment<T> for AudioOutputSignal<
    S,
    F,
    T,
> {
    /// Frame `i` of the block is merged with output `i` of the block of the signal.
    closed spec fn output_at(&self, ctxs: Seq<SignalExecutionContext>, k: nat, mix: Seq<(T, T)>) -> Seq<(T, T)> {
        audio_output_at::<S, F, T>(self.state, self.merge.closure(), ctxs, k, mix)
    }

    fn execute_block(&mut self, ctx: &SignalExecutionContext, mix: &mut Vec<(T, T)>) {
        let ghost mix0 = mix@;
        let ghost state0 = self.state;
        let outs = execute_block_collect::<S>(ctx, &mut self.state);
        let mut i: usize = 0;
        while i < BLOCK_SIZE
            invariant
                i <= BLOCK_SIZE,
                mix@.len() == BLOCK_SIZE,
                mix0.len() == BLOCK_SIZE,
                outs@.len() == BLOCK_SIZE,
                forall|j: int| 0 <= j < i ==> #[trigger] mix@[j] == applied(self.merge.closure(), (mix0[j], outs@[j])),
                forall|j: int| i <= j < BLOCK_SIZE ==> #[trigger] mix@[j] == mix0[j],
            decreases BLOCK_SIZE - i,
        {
            let m = mix[i];
            let o = outs[i];
            let v = self.merge.call((m, o));
            mix.set(i, v);
            i = i + 1;
        }
        proof {
            assert(mix@ =~= mixed(mix0, outs@, self.merge.closure()));
            assert(seq![*ctx][0] == *ctx);
            assert forall|ctxs: Seq<SignalExecutionContext>, k: nat, m: Seq<(T, T)>|
                k < ctxs.len() implies #[trigger] audio_output_at::<S, F, T>(self.state, self.merge.closure(), ctxs, k, m)
                    == audio_output_at::<S, F, T>(state0, self.merge.closure(), seq![*ctx] + ctxs, k + 1, m) by {
                lemma_state_after_shift::<S>(*ctx, ctxs, k, state0);
                assert((seq![*ctx] + ctxs)[(k + 1) as int] == ctxs[k as int]);
            }
        }
    }
}

/// Inserts `x` into the set held in `v`, keeping each element once and the order of first insertion.
fn insert_once(v: &mut Vec<u64>, x: u64)
    ensures
        final(v)@ == if old(v)@.contains(x) {
            old(v)@
        } else {
            old(v)@.push(x)
        },
        old(v)@.no_duplicates() ==> final(v)@.no_duplicates(),
{
    let mut i: usize = 0;
    while i < v.len()
        invariant
            i <= v.len(),
            v@ == old(v)@,
            forall|j: int| 0 <= j < i ==> v[j] != x,
        decreases v.len() - i,
    {
        if v[i] == x {
            return;
        }
        i = i + 1;
    }
    let ghost before = v@;
    v.push(x);
    proof {
        assert forall|a: int, b: int| 0 <= a < v@.len() && 0 <= b < v@.len() && a != b && before.no_duplicates()
            implies v@[a] != v@[b] by {
            if a < before.len() && b < before.len() {
                assert(before[a] != before[b]);
            } else if a == before.len() {
                assert(before[b] != x);
            } else {
                assert(before[a] != x);
            }
        }
    }
}

/// The block after `frags` run in order, each making of `mix` what it makes of it in block `k` of a run whose
/// blocks have the contexts `ctxs`, each taking what the earlier ones left.
pub open spec fn fragments_output<T>(
    frags: Seq<FragmentBox<T>>,
    ctxs: Seq<SignalExecutionContext>,
    k: nat,
    mix: Seq<(T, T)>,
) -> Seq<(T, T)>
    decreases frags.len(),
{
    if frags.len() == 0 {
        mix
    } else {
        frags.last().output_at(ctxs, k, fragments_output(frags.drop_last(), ctxs, k, mix))
    }
}

/// Each fragment of `after` is the one at the same place in `before`, having run one more block, with the
/// context `ctx`.
pub open spec fn advanced<T>(
    before: Seq<FragmentBox<T>>,
    after: Seq<FragmentBox<T>>,
    ctx: SignalExecutionContext,
) -> bool {
    &&& after.len() == before.len()
    &&& forall|j: int, ctxs: Seq<SignalExecutionContext>, k: nat, m: Seq<(T, T)>|
        0 <= j < before.len() && k < ctxs.len() ==> #[trigger] after[j].output_at(ctxs, k, m) == before[j].output_at(
            seq![ctx] + ctxs,
            k + 1,
            m,
        )
}

/// The fragments of a program carry on from block to block: once they have run a block with the context
/// `ctx`, what they make of any later block is what they would have made of it, counted from before that
/// block.
pub proof fn lemma_fragments_continue<T>(
    before: Seq<FragmentBox<T>>,
    after: Seq<FragmentBox<T>>,
    ctx: SignalExecutionContext,
    ctxs: Seq<SignalExecutionContext>,
    k: nat,
    mix: Seq<(T, T)>,
)
    requires
        advanced(before, after, ctx),
        k < ctxs.len(),
    ensures
        fragments_output(after, ctxs, k, mix) == fragments_output(before, seq![ctx] + ctxs, k + 1, mix),
    decreases before.len(),
{
    if before.len() > 0 {
        let n = before.len() - 1;
        assert(advanced(before.drop_last(), after.drop_last(), ctx)) by {
            assert forall|j: int, c: Seq<SignalExecutionContext>, q: nat, m: Seq<(T, T)>|
                0 <= j < before.drop_last().len() && q < c.len() implies #[trigger] after.drop_last()[j].output_at(c, q, m)
                    == before.drop_last()[j].output_at(seq![ctx] + c, q + 1, m) by {
                assert(after.drop_last()[j] == after[j]);
                assert(before.drop_last()[j] == before[j]);
                assert(after[j].output_at(c, q, m) == before[j].output_at(seq![ctx] + c, q + 1, m));
            }
        }
        lemma_fragments_continue(before.drop_last(), after.drop_last(), ctx, ctxs, k, mix);
        let m1 = fragments_output(after.drop_last(), ctxs, k, mix);
        assert(after[n].output_at(ctxs, k, m1) == before[n].output_at(seq![ctx] + ctxs, k + 1, m1));
    }
}

/// A collection of signal fragments that execute together as a unit, in order, every block, together with the
/// buses it reads and writes and the slots and wavetables it uses.
#[verifier::reject_recursive_types(T)]
pub struct Program<T> {
    id: UniqueId,
    fragments: Vec<FragmentBox<T>>,
    input_buses: Vec<u64>,
    output_buses: Vec<u64>,
    internal_buses: Vec<u64>,
    bus_handles: Vec<u64>,
    slots: Vec<u64>,
    wavetable_handles: Vec<u64>,
    runs: Ghost<nat>,
}

impl<T> Program<T> {
    /// The program's identifier.
    pub closed spec fn id_view(self) -> UniqueId {
        self.id
    }

    /// The buses the program reads, each once, in the order they were first linked.
    pub closed spec fn inputs(self) -> Seq<u64> {
        self.input_buses@
    }

    /// The buses the program writes, each once, in the order they were first linked.
    pub closed spec fn outputs(self) -> Seq<u64> {
        self.output_buses@
    }

    /// The buses internal to the program, one entry per link.
    pub closed spec fn internal(self) -> Seq<u64> {
        self.internal_buses@
    }

    /// The buses whose handles the program keeps, one entry per link.
    pub closed spec fn bus_handles_view(self) -> Seq<u64> {
        self.bus_handles@
    }

    /// The slots the program uses, each once.
    pub closed spec fn slots_view(self) -> Seq<u64> {
        self.slots@
    }

    /// The wavetables the program uses, one entry per use.
    pub closed spec fn wavetables_view(self) -> Seq<u64> {
        self.wavetable_handles@
    }

    /// How many blocks the program has run.
    pub closed spec fn blocks_run(self) -> nat {
        self.runs@
    }

    /// How many fragments the program runs each block.
    pub closed spec fn fragment_count(self) -> nat {
        self.fragments@.len()
    }

    /// The fragments, in the order they run.
    pub closed spec fn fragments_view(self) -> Seq<FragmentBox<T>> {
        self.fragments@
    }

    /// The bookkeeping of the program: everything but the fragments.
    pub open spec fn links_unchanged(self, other: Program<T>) -> bool {
        &&& other.id_view() == self.id_view()
        &&& other.inputs() == self.inputs()
        &&& other.outputs() == self.outputs()
        &&& other.internal() == self.internal()
        &&& other.bus_handles_view() == self.bus_handles_view()
        &&& other.slots_view() == self.slots_view()
        &&& other.wavetables_view() == self.wavetables_view()
    }

    /// The program's buses read and written hold each bus once.
    pub closed spec fn wf(self) -> bool {
        self.input_buses@.no_duplicates() && self.output_buses@.no_duplicates()
    }

    /// An empty program with the identifier `id`.
    pub fn new(id: UniqueId) -> (r: Program<T>)
        ensures
            r.wf(),
            r.fragment_count() == 0,
            r.blocks_run() == 0,
            r.id_view() == id,
            r.inputs() == Seq::<u64>::empty(),
            r.outputs() == Seq::<u64>::empty(),
            r.internal() == Seq::<u64>::empty(),
            r.bus_handles_view() == Seq::<u64>::empty(),
            r.slots_view() == Seq::<u64>::empty(),
            r.wavetables_view() == Seq::<u64>::empty(),
    {
        Program {
            id,
            fragments: Vec::new(),
            input_buses: Vec::new(),
            output_buses: Vec::new(),
            internal_buses: Vec::new(),
            bus_handles: Vec::new(),
            slots: Vec::new(),
            wavetable_handles: Vec::new(),
            runs: Ghost(0),
        }
    }

    /// The program's identifier.
    pub fn id(&self) -> (r: UniqueId)
        ensures
            r == self.id_view(),
    {
        self.id
    }

    /// An empty chain for this program, to be built up and then added with [Program::add_fragment].
    pub fn new_chain(&self) -> (r: Chain<NullSignal>)
        ensures
            r.inner.succeeds(),
            r.inner.initial_state() == (),
    {
        Chain { inner: NullSignal::new() }
    }

    /// Add a signal fragment to this program: a chain without input, whose output is dropped.  The new last
    /// fragment runs the chain's signal from the initial state the chain gives.  Fails, leaving the program as
    /// it was, when the chain cannot be turned into a signal.
    pub fn add_fragment<S: IntoSignal>(&mut self, signal_config: Chain<S>) -> (r: Result<(), Error>) where
        S::Signal: Signal<Input = ()> + 'static,
        <S::Signal as Signal>::State: 'static,

        ensures
            r is Ok <==> signal_config.inner.succeeds(),
            r matches Err(e) ==> e == signal_config.inner.failure() && *final(self) == *old(self),
            r is Ok ==> final(self).fragments_view().take(old(self).fragment_count() as int)
                == old(self).fragments_view(),
            r is Ok ==> exists|signal: S::Signal|
                final(self).fragments_view().last() == #[trigger] signal_fragment::<S::Signal, T>(
                    signal,
                    signal_config.inner.initial_state(),
                ),
            r is Ok ==> forall|ctxs: Seq<SignalExecutionContext>, k: nat, m: Seq<(T, T)>|
                #[trigger] final(self).fragments_view().last().output_at(ctxs, k, m) == m,
            final(self).blocks_run() == old(self).blocks_run(),
            final(self).fragment_count() == old(self).fragment_count() + if r is Ok { 1nat } else { 0nat },
            old(self).links_unchanged(*final(self)),
            final(self).wf() == old(self).wf(),
    {
        match signal_config.inner.into_signal() {
            Ok(ready) => {
                let fragment = FragmentBox {
                    fragment: Box::new(SignalFragment::<S::Signal> { signal: ready.signal, state: ready.state }),
                };
                let ghost before = self.fragments@;
                self.fragments.push(fragment);
                proof {
                    let after = self.fragments@;
                    let n = before.len() as int;
                    vstd::seq::axiom_seq_push_len(before, fragment);
                    assert(after == before.push(fragment));
                    vstd::seq::axiom_seq_subrange_len(after, 0, n);
                    assert forall|i: int| 0 <= i < n implies #[trigger] after.take(n)[i] == before[i] by {
                        vstd::seq::axiom_seq_subrange_index(after, 0, n, i);
                        vstd::seq::axiom_seq_push_index_different(before, fragment, i);
                    }
                    vstd::seq::axiom_seq_ext_equal(after.take(n), before);
                    vstd::seq::axiom_seq_push_index_same(before, fragment, n);
                    assert(after.last() == fragment);
                    assert(fragment == signal_fragment::<S::Signal, T>(ready.signal, ready.state));
                }
                Ok(())
            },
            Err(e) => Err(e),
        }
    }

    /// Add a fragment sending a stereo signal to the audio device: each block, the signal's frames are merged
    /// into the output block.  The new last fragment runs the chain's signal from the initial state the chain
    /// gives, with the configured merge.  Fails, leaving the program as it was, when the chain cannot be turned
    /// into a signal.
    pub fn add_audio_output<S: IntoSignal, F: Fn(((T, T), (T, T))) -> (T, T) + 'static>(
        &mut self,
        config: AudioOutputSignalConfig<S, F, T>,
    ) -> (r: Result<(), Error>) where
        S::Signal: Signal<Input = (), Output = (T, T)> + 'static,
        <S::Signal as Signal>::State: 'static,
        T: Copy + 'static,

        ensures
            r is Ok <==> config.parent_view().succeeds(),
            r matches Err(e) ==> e == config.parent_view().failure() && *final(self) == *old(self),
            r is Ok ==> final(self).fragments_view().take(old(self).fragment_count() as int)
                == old(self).fragments_view(),
            r is Ok ==> exists|signal: S::Signal|
                final(self).fragments_view().last() == #[trigger] audio_fragment::<S::Signal, F, T>(
                    signal,
                    config.parent_view().initial_state(),
                    config.merge_function(),
                ),
            r is Ok ==> forall|ctxs: Seq<SignalExecutionContext>, k: nat, m: Seq<(T, T)>|
                #[trigger] final(self).fragments_view().last().output_at(ctxs, k, m) == audio_output_at::<
                    S::Signal,
                    F,
                    T,
                >(config.parent_view().initial_state(), config.merge_view(), ctxs, k, m),
            final(self).blocks_run() == old(self).blocks_run(),
            final(self).fragment_count() == old(self).fragment_count() + if r is Ok { 1nat } else { 0nat },
            old(self).links_unchanged(*final(self)),
            final(self).wf() == old(self).wf(),
    {
        let AudioOutputSignalConfig { parent, merge } = config;
        match parent.into_signal() {
            Ok(ready) => {
                let fragment = FragmentBox {
                    fragment: Box::new(
                        AudioOutputSignal::<S::Signal, F, T> { signal: ready.signal, state: ready.state, merge },
                    ),
                };
                let ghost before = self.fragments@;
                self.fragments.push(fragment);
                proof {
                    let after = self.fragments@;
                    let n = before.len() as int;
                    vstd::seq::axiom_seq_push_len(before, fragment);
                    assert(after == before.push(fragment));
                    vstd::seq::axiom_seq_subrange_len(after, 0, n);
                    assert forall|i: int| 0 <= i < n implies #[trigger] after.take(n)[i] == before[i] by {
                        vstd::seq::axiom_seq_subrange_index(after, 0, n, i);
                        vstd::seq::axiom_seq_push_index_different(before, fragment, i);
                    }
                    vstd::seq::axiom_seq_ext_equal(after.take(n), before);
                    vstd::seq::axiom_seq_push_index_same(before, fragment, n);
                    assert(after.last() == fragment);
                    assert(merge == config.merge_function());
                    assert(ready.state == config.parent_view().initial_state());
                    assert(fragment == audio_fragment::<S::Signal, F, T>(ready.signal, ready.state, merge));
                }
                Ok(())
            },
            Err(e) => Err(e),
        }
    }

    /// Run one block of every fragment, in the order they were added.  Each fragment carries on from where it
    /// was.
    pub fn execute_block(&mut self, ctx: &SignalExecutionContext, mix: &mut Vec<(T, T)>)
        requires
            old(mix)@.len() == BLOCK_SIZE,
        ensures
            final(mix)@ == fragments_output(old(self).fragments_view(), seq![*ctx], 0, old(mix)@),
            final(mix)@.len() == BLOCK_SIZE,
            advanced(old(self).fragments_view(), final(self).fragments_view(), *ctx),
            final(self).fragment_count() == old(self).fragment_count(),
            final(self).blocks_run() == old(self).blocks_run() + 1,
            old(self).links_unchanged(*final(self)),
            final(self).wf() == old(self).wf(),
    {
        let mut i: usize = 0;
        let ghost start = *self;
        let ghost mix0 = mix@;
        while i < self.fragments.len()
            invariant
                start.links_unchanged(*self),
                self.wf() == start.wf(),
                self.fragment_count() == start.fragment_count(),
                self.blocks_run() == start.blocks_run(),
                i <= self.fragments@.len(),
                mix@.len() == BLOCK_SIZE,
                mix@ == fragments_output(start.fragments_view().take(i as int), seq![*ctx], 0, mix0),
                forall|j: int| i <= j < self.fragments@.len() ==> #[trigger] self.fragments@[j] == start.fragments_view()[j],
                forall|j: int, ctxs: Seq<SignalExecutionContext>, k: nat, m: Seq<(T, T)>|
                    0 <= j < i && k < ctxs.len() ==> #[trigger] self.fragments@[j].output_at(ctxs, k, m)
                        == start.fragments_view()[j].output_at(seq![*ctx] + ctxs, k + 1, m),
            decreases self.fragments.len() - i,
        {
            let ghost before = self.fragments@;
            let ghost m = mix@;
            self.fragments[i].fragment.execute_block(ctx, mix);
            proof {
                let t1 = start.fragments_view().take(i + 1);
                vstd::seq::axiom_seq_subrange_len(start.fragments_view(), 0, i + 1);
                vstd::seq::axiom_seq_subrange_len(start.fragments_view(), 0, i as int);
                assert forall|j: int| 0 <= j < i implies #[trigger] t1.drop_last()[j] == start.fragments_view().take(
                    i as int,
                )[j] by {
                    vstd::seq::axiom_seq_subrange_index(start.fragments_view(), 0, i + 1, j);
                    vstd::seq::axiom_seq_subrange_index(start.fragments_view(), 0, i as int, j);
                    vstd::seq::axiom_seq_subrange_index(t1, 0, i as int, j);
                }
                vstd::seq::axiom_seq_subrange_len(t1, 0, i as int);
                vstd::seq::axiom_seq_ext_equal(t1.drop_last(), start.fragments_view().take(i as int));
                vstd::seq::axiom_seq_subrange_index(start.fragments_view(), 0, i + 1, i as int);
                assert(t1.last() == before[i as int]);
                assert forall|j: int| i + 1 <= j < self.fragments@.len() implies #[trigger] self.fragments@[j]
                    == start.fragments_view()[j] by {
                    vstd::seq::axiom_seq_update_different(before, j, i as int, self.fragments@[i as int]);
                }
                assert forall|j: int, ctxs: Seq<SignalExecutionContext>, k: nat, mm: Seq<(T, T)>|
                    0 <= j < i + 1 && k < ctxs.len() implies #[trigger] self.fragments@[j].output_at(ctxs, k, mm)
                        == start.fragments_view()[j].output_at(seq![*ctx] + ctxs, k + 1, mm) by {
                    if j < i {
                        vstd::seq::axiom_seq_update_different(before, j, i as int, self.fragments@[i as int]);
                        assert(self.fragments@[j] == before[j]);
                    }
                }
            }
            i = i + 1;
        }
        proof {
            vstd::seq::axiom_seq_subrange_len(start.fragments_view(), 0, i as int);
            assert forall|j: int| 0 <= j < i implies #[trigger] start.fragments_view().take(i as int)[j]
                == start.fragments_view()[j] by {
                vstd::seq::axiom_seq_subrange_index(start.fragments_view(), 0, i as int, j);
            }
            vstd::seq::axiom_seq_ext_equal(start.fragments_view().take(i as int), start.fragments_view());
        }
        self.runs = Ghost(self.runs@ + 1);
    }

    /// Link an input bus: the program reads `bus`.
    pub fn link_input_bus<B>(&mut self, bus: &BusHandle<B>) -> (r: BusLink<B>)
        ensures
            r.bus() == bus.id_view(),
            r.kind() == BusLinkType::Input,
            r.program() == old(self).id_view(),
            final(self).fragments_view() == old(self).fragments_view(),
            final(self).blocks_run() == old(self).blocks_run(),
            final(self).inputs() == if old(self).inputs().contains(bus.id_view().raw()) {
                old(self).inputs()
            } else {
                old(self).inputs().push(bus.id_view().raw())
            },
            final(self).bus_handles_view() == old(self).bus_handles_view().push(bus.id_view().raw()),
            final(self).id_view() == old(self).id_view(),
            final(self).outputs() == old(self).outputs(),
            final(self).internal() == old(self).internal(),
            final(self).slots_view() == old(self).slots_view(),
            final(self).wavetables_view() == old(self).wavetables_view(),
            old(self).wf() ==> final(self).wf(),
    {
        let id = bus.id();
        insert_once(&mut self.input_buses, id.get());
        self.bus_handles.push(id.get());
        BusLink { bus_id: id, link_type: BusLinkType::Input, program_id: self.id, _phantom: PhantomData }
    }

    /// Link an output bus: the program writes `bus`.
    pub fn link_output_bus<B>(&mut self, bus: &BusHandle<B>) -> (r: BusLink<B>)
        ensures
            r.bus() == bus.id_view(),
            r.kind() == BusLinkType::Output,
            r.program() == old(self).id_view(),
            final(self).fragments_view() == old(self).fragments_view(),
            final(self).blocks_run() == old(self).blocks_run(),
            final(self).outputs() == if old(self).outputs().contains(bus.id_view().raw()) {
                old(self).outputs()
            } else {
                old(self).outputs().push(bus.id_view().raw())
            },
            final(self).bus_handles_view() == old(self).bus_handles_view().push(bus.id_view().raw()),
            final(self).id_view() == old(self).id_view(),
            final(self).inputs() == old(self).inputs(),
            final(self).internal() == old(self).internal(),
            final(self).slots_view() == old(self).slots_view(),
            final(self).wavetables_view() == old(self).wavetables_view(),
            old(self).wf() ==> final(self).wf(),
    {
        let id = bus.id();
        insert_once(&mut self.output_buses, id.get());
        self.bus_handles.push(id.get());
        BusLink { bus_id: id, link_type: BusLinkType::Output, program_id: self.id, _phantom: PhantomData }
    }

    /// Link an internal bus: the program writes and reads `bus` itself.
    pub fn link_internal_bus<B>(&mut self, bus: &BusHandle<B>) -> (r: BusLink<B>)
        ensures
            r.bus() == bus.id_view(),
            r.kind() == BusLinkType::Internal,
            r.program() == old(self).id_view(),
            final(self).fragments_view() == old(self).fragments_view(),
            final(self).blocks_run() == old(self).blocks_run(),
            final(self).internal() == old(self).internal().push(bus.id_view().raw()),
            final(self).bus_handles_view() == old(self).bus_handles_view().push(bus.id_view().raw()),
            final(self).id_view() == old(self).id_view(),
            final(self).inputs() == old(self).inputs(),
            final(self).outputs() == old(self).outputs(),
            final(self).slots_view() == old(self).slots_view(),
            final(self).wavetables_view() == old(self).wavetables_view(),
            final(self).wf() == old(self).wf(),
    {
        let id = bus.id();
        self.internal_buses.push(id.get());
        self.bus_handles.push(id.get());
        BusLink { bus_id: id, link_type: BusLinkType::Internal, program_id: self.id, _phantom: PhantomData }
    }

    /// Record that the program uses `slot`.
    pub fn uses_slot<V>(&mut self, slot: &Slot<V>)
        ensures
            final(self).fragments_view() == old(self).fragments_view(),
            final(self).blocks_run() == old(self).blocks_run(),
            final(self).slots_view() == if old(self).slots_view().contains(slot.id_view().raw()) {
                old(self).slots_view()
            } else {
                old(self).slots_view().push(slot.id_view().raw())
            },
            final(self).id_view() == old(self).id_view(),
            final(self).inputs() == old(self).inputs(),
            final(self).outputs() == old(self).outputs(),
            final(self).internal() == old(self).internal(),
            final(self).bus_handles_view() == old(self).bus_handles_view(),
            final(self).wavetables_view() == old(self).wavetables_view(),
            final(self).wf() == old(self).wf(),
    {
        insert_once(&mut self.slots, slot.id().get());
    }

    /// Record that the program uses `wavetable`.
    pub fn uses_wavetable(&mut self, wavetable: &WaveTableHandle)
        ensures
            final(self).fragments_view() == old(self).fragments_view(),
            final(self).blocks_run() == old(self).blocks_run(),
            final(self).wavetables_view() == old(self).wavetables_view().push(wavetable.id_view().raw()),
            final(self).id_view() == old(self).id_view(),
            final(self).inputs() == old(self).inputs(),
            final(self).outputs() == old(self).outputs(),
            final(self).internal() == old(self).internal(),
            final(self).bus_handles_view() == old(self).bus_handles_view(),
            final(self).slots_view() == old(self).slots_view(),
            final(self).wf() == old(self).wf(),
    {
        self.wavetable_handles.push(wavetable.id().get());
    }

    /// Whether the program reads the bus `bus`.
    pub fn reads_bus(&self, bus: u64) -> (r: bool)
        ensures
            r == self.inputs().contains(bus),
    {
        vec_contains(&self.input_buses, bus)
    }

    /// Whether the program writes the bus `bus`.
    pub fn writes_bus(&self, bus: u64) -> (r: bool)
        ensures
            r == self.outputs().contains(bus),
    {
        vec_contains(&self.output_buses, bus)
    }

    /// The buses the program reads.
    pub fn input_bus_ids(&self) -> (r: &Vec<u64>)
        ensures
            r@ == self.inputs(),
    {
        &self.input_buses
    }

    /// The buses the program writes.
    pub fn output_bus_ids(&self) -> (r: &Vec<u64>)
        ensures
            r@ == self.outputs(),
    {
        &self.output_buses
    }
}

/// Whether `x` occurs in `v`.
pub fn vec_contains(v: &Vec<u64>, x: u64) -> (r: bool)
    ensures
        r == v@.contains(x),
{
    let mut i: usize = 0;
    while i < v.len()
        invariant
            i <= v.len(),
            forall|j: int| 0 <= j < i ==> v[j] != x,
        decreases v.len() - i,
    {
        if v[i] == x {
            return true;
        }
        i = i + 1;
    }
    false
}

} // verus!
