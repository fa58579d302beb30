use crate::error::Error;
use std::marker::PhantomData;
use vstd::prelude::*;

verus! {

/// What a signal sees of the block being computed.
#[derive(Clone, Copy, Debug, PartialEq, Eq, Structural)]
pub struct SignalExecutionContext {
    /// Blocks computed since the synthesizer started.
    pub time_in_blocks: u64,
}

/// A signal: a per-frame computation from an input to an output, carrying state from frame to frame.
///
/// A signal is told when a block starts, and then ticked once per frame of the block.  What a tick does is
/// stated by [Signal::tick_spec]: the output and the next state, given the context, the input and the
/// current state.
pub trait Signal {
    /// What each tick consumes.
    type Input;
    /// What each tick produces.
    type Output;
    /// What is carried from tick to tick.
    type State;

    /// The output and next state of one tick.
    spec fn tick_spec(ctx: SignalExecutionContext, input: Self::Input, state: Self::State) -> (
        Self::Output,
        Self::State,
    );

    /// The state after the start of a block.
    spec fn block_start_spec(ctx: SignalExecutionContext, state: Self::State) -> Self::State;

    /// Prepare for a block.
    fn on_block_start(ctx: &SignalExecutionContext, state: &mut Self::State)
        ensures
            *final(state) == Self::block_start_spec(*ctx, *old(state)),
    ;

    /// Compute one frame.
    fn tick_frame(ctx: &SignalExecutionContext, input: Self::Input, state: &mut Self::State) -> (r: Self::Output)
        ensures
            (r, *final(state)) == Self::tick_spec(*ctx, input, *old(state)),
    ;
}

/// A signal ready to run, with its initial state.
pub struct ReadySignal<S, St> {
    pub signal: S,
    pub state: St,
}

/// A description of a signal, which is turned into the signal and its initial state when a chain is
/// mounted.
pub trait IntoSignal {
    /// The signal described.
    type Signal: Signal;

    /// Whether turning this description into a signal succeeds.
    spec fn succeeds(self) -> bool;

    /// The error turning this description into a signal gives, when it fails.
    spec fn failure(self) -> Error;

    /// The initial state of the signal, when turning it into a signal succeeds.
    spec fn initial_state(self) -> <Self::Signal as Signal>::State;

    /// Turn this description into the signal and its initial state.
    fn into_signal(self) -> (r: Result<ReadySignal<Self::Signal, <Self::Signal as Signal>::State>, Error>)
        ensures
            r is Ok <==> self.succeeds(),
            r matches Ok(ready) ==> ready.state == self.initial_state(),
            r matches Err(e) ==> e == self.failure(),
    ;
}

/// The null signal: takes nothing and outputs nothing.  Chains start from it.
pub struct NullSignal(());

impl NullSignal {
    /// The null signal.
    pub fn new() -> (r: NullSignal) {
        NullSignal(())
    }
}

impl Signal for NullSignal {
    type Input = ();
    type Output = ();
    type State = ();

    open spec fn tick_spec(ctx: SignalExecutionContext, input: (), state: ()) -> ((), ()) {
        ((), ())
    }

    open spec fn block_start_spec(ctx: SignalExecutionContext, state: ()) -> () {
        ()
    }

    fn on_block_start(ctx: &SignalExecutionContext, state: &mut ()) {
    }

    fn tick_frame(ctx: &SignalExecutionContext, input: (), state: &mut ()) -> (r: ()) {
    }
}

impl IntoSignal for NullSignal {
    type Signal = NullSignal;

    open spec fn succeeds(self) -> bool {
        true
    }

    open spec fn failure(self) -> Error {
        arbitrary()
    }

    open spec fn initial_state(self) -> () {
        ()
    }

    fn into_signal(self) -> (r: Result<ReadySignal<NullSignal, ()>, Error>) {
        Ok(ReadySignal { signal: NullSignal::new(), state: () })
    }
}

/// Feeds the output of the signal on the left to the signal on the right; the left is computed first.
pub struct AndThen<S1, S2>(S1, S2);

impl<S1, S2> AndThen<S1, S2> {
    /// The signal computed first.
    pub closed spec fn first(self) -> S1 {
        self.0
    }

    /// The signal fed by the first.
    pub closed spec fn second(self) -> S2 {
        self.1
    }

    /// Chain `s1` into `s2`.
    pub fn new(s1: S1, s2: S2) -> (r: Self)
        ensures
            r.first() == s1,
            r.second() == s2,
    {
        AndThen(s1, s2)
    }
}

impl<S1: Signal, S2: Signal<Input = S1::Output>> Signal for AndThen<S1, S2> {
    type Input = S1::Input;
    type Output = S2::Output;
    type State = (S1::State, S2::State);

    open spec fn tick_spec(ctx: SignalExecutionContext, input: S1::Input, state: (S1::State, S2::State)) -> (
        S2::Output,
        (S1::State, S2::State),
    ) {
        let (mid, s1) = S1::tick_spec(ctx, input, state.0);
        let (out, s2) = S2::tick_spec(ctx, mid, state.1);
        (out, (s1, s2))
    }

    open spec fn block_start_spec(ctx: SignalExecutionContext, state: (S1::State, S2::State)) -> (
        S1::State,
        S2::State,
    ) {
        (S1::block_start_spec(ctx, state.0), S2::block_start_spec(ctx, state.1))
    }

    fn on_block_start(ctx: &SignalExecutionContext, state: &mut (S1::State, S2::State)) {
        S1::on_block_start(ctx, &mut state.0);
        S2::on_block_start(ctx, &mut state.1);
    }

    fn tick_frame(ctx: &SignalExecutionContext, input: S1::Input, state: &mut (S1::State, S2::State)) -> (r:
        S2::Output) {
        let left_output = S1::tick_frame(ctx, input, &mut state.0);
        S2::tick_frame(ctx, left_output, &mut state.1)
    }
}

/// Description of an [AndThen].
pub struct AndThenConfig<C1, C2> {
    left: C1,
    right: C2,
}

impl<C1, C2> AndThenConfig<C1, C2> {
    /// Describe feeding `left` into `right`.
    pub fn new(left: C1, right: C2) -> (r: Self)
        ensures
            r.left_config() == left,
            r.right_config() == right,
    {
        AndThenConfig { left, right }
    }

    /// The left description.
    pub closed spec fn left_config(self) -> C1 {
        self.left
    }

    /// The right description.
    pub closed spec fn right_config(self) -> C2 {
        self.right
    }
}

impl<C1: IntoSignal, C2: IntoSignal> IntoSignal for AndThenConfig<C1, C2> where
    C2::Signal: Signal<Input = <C1::Signal as Signal>::Output>,
 {
    type Signal = AndThen<C1::Signal, C2::Signal>;

    open spec fn succeeds(self) -> bool {
        self.left_config().succeeds() && self.right_config().succeeds()
    }

    open spec fn failure(self) -> Error {
        if !self.left_config().succeeds() {
            self.left_config().failure()
        } else {
            self.right_config().failure()
        }
    }

    open spec fn initial_state(self) -> (<C1::Signal as Signal>::State, <C2::Signal as Signal>::State) {
        (self.left_config().initial_state(), self.right_config().initial_state())
    }

    fn into_signal(self) -> (r: Result<
        ReadySignal<AndThen<C1::Signal, C2::Signal>, (<C1::Signal as Signal>::State, <C2::Signal as Signal>::State)>,
        Error,
    >) {
        let s1 = match self.left.into_signal() {
            Ok(s) => s,
            Err(e) => {
                return Err(e);
            },
        };
        let s2 = match self.right.into_signal() {
            Ok(s) => s,
            Err(e) => {
                return Err(e);
            },
        };
        Ok(ReadySignal { signal: AndThen::new(s1.signal, s2.signal), state: (s1.state, s2.state) })
    }
}

/// Runs two signals side by side: the input is a pair, split between them, and the outputs are paired.
pub struct JoinSignal<S1, S2>(S1, S2);

/// State of a [JoinSignal]: the states of both sides.
pub struct JoinSignalState<St1, St2>(pub St1, pub St2);

/// Description of a [JoinSignal].
pub struct JoinSignalConfig<C1, C2>(C1, C2);

impl<S1: Signal, S2: Signal> Signal for JoinSignal<S1, S2> {
    type Input = (S1::Input, S2::Input);
    type Output = (S1::Output, S2::Output);
    type State = JoinSignalState<S1::State, S2::State>;

    open spec fn tick_spec(
        ctx: SignalExecutionContext,
        input: (S1::Input, S2::Input),
        state: JoinSignalState<S1::State, S2::State>,
    ) -> ((S1::Output, S2::Output), JoinSignalState<S1::State, S2::State>) {
        let (o1, s1) = S1::tick_spec(ctx, input.0, state.0);
        let (o2, s2) = S2::tick_spec(ctx, input.1, state.1);
        ((o1, o2), JoinSignalState(s1, s2))
    }

    open spec fn block_start_spec(ctx: SignalExecutionContext, state: JoinSignalState<S1::State, S2::State>) -> JoinSignalState<
        S1::State,
        S2::State,
    > {
        JoinSignalState(S1::block_start_spec(ctx, state.0), S2::block_start_spec(ctx, state.1))
    }

    fn on_block_start(ctx: &SignalExecutionContext, state: &mut JoinSignalState<S1::State, S2::State>) {
        S1::on_block_start(ctx, &mut state.0);
        S2::on_block_start(ctx, &mut state.1);
    }

    fn tick_frame(
        ctx: &SignalExecutionContext,
        input: (S1::Input, S2::Input),
        state: &mut JoinSignalState<S1::State, S2::State>,
    ) -> (r: (S1::Output, S2::Output)) {
        let (left_input, right_input) = input;
        let left_output = S1::tick_frame(ctx, left_input, &mut state.0);
        let right_output = S2::tick_frame(ctx, right_input, &mut state.1);
        (left_output, right_output)
    }
}

impl<C1, C2> JoinSignalConfig<C1, C2> {
    /// Describe running `c1` and `c2` side by side.
    pub fn new(c1: C1, c2: C2) -> (r: Self)
        ensures
            r.first() == c1,
            r.second() == c2,
    {
        JoinSignalConfig(c1, c2)
    }

    /// The first description.
    pub closed spec fn first(self) -> C1 {
        self.0
    }

    /// The second description.
    pub closed spec fn second(self) -> C2 {
        self.1
    }
}

impl<C1: IntoSignal, C2: IntoSignal> IntoSignal for JoinSignalConfig<C1, C2> {
    type Signal = JoinSignal<C1::Signal, C2::Signal>;

    open spec fn succeeds(self) -> bool {
        self.first().succeeds() && self.second().succeeds()
    }

    open spec fn failure(self) -> Error {
        if !self.first().succeeds() {
            self.first().failure()
        } else {
            self.second().failure()
        }
    }

    open spec fn initial_state(self) -> JoinSignalState<<C1::Signal as Signal>::State, <C2::Signal as Signal>::State> {
        JoinSignalState(self.first().initial_state(), self.second().initial_state())
    }

    fn into_signal(self) -> (r: Result<
        ReadySignal<
            JoinSignal<C1::Signal, C2::Signal>,
            JoinSignalState<<C1::Signal as Signal>::State, <C2::Signal as Signal>::State>,
        >,
        Error,
    >) {
        let par_l = match self.0.into_signal() {
            Ok(s) => s,
            Err(e) => {
                return Err(e);
            },
        };
        let par_r = match self.1.into_signal() {
            Ok(s) => s,
            Err(e) => {
                return Err(e);
            },
        };
        Ok(ReadySignal { signal: JoinSignal(par_l.signal, par_r.signal), state: JoinSignalState(par_l.state, par_r.state) })
    }
}

/// Splits off the output of a parent signal, feeds it to a bypass signal, and outputs both: the value
/// before and after some effect.
pub struct BypassSignal<P, B> {
    parent_sig: P,
    bypass_sig: B,
}

/// State of a [BypassSignal].
pub struct BypassSignalState<PSt, BSt> {
    pub parent_sig_state: PSt,
    pub bypass_sig_state: BSt,
}

/// Description of a [BypassSignal].
pub struct BypassSignalConfig<PC, BC> {
    parent_cfg: PC,
    bypass_cfg: BC,
}

impl<P: Signal, B: Signal<Input = P::Output>> Signal for BypassSignal<P, B> where P::Output: Copy {
    type Input = P::Input;
    type Output = (P::Output, B::Output);
    type State = BypassSignalState<P::State, B::State>;

    open spec fn tick_spec(
        ctx: SignalExecutionContext,
        input: P::Input,
        state: BypassSignalState<P::State, B::State>,
    ) -> ((P::Output, B::Output), BypassSignalState<P::State, B::State>) {
        let (po, ps) = P::tick_spec(ctx, input, state.parent_sig_state);
        let (bo, bs) = B::tick_spec(ctx, po, state.bypass_sig_state);
        ((po, bo), BypassSignalState { parent_sig_state: ps, bypass_sig_state: bs })
    }

    open spec fn block_start_spec(ctx: SignalExecutionContext, state: BypassSignalState<P::State, B::State>) -> BypassSignalState<
        P::State,
        B::State,
    > {
        BypassSignalState {
            parent_sig_state: P::block_start_spec(ctx, state.parent_sig_state),
            bypass_sig_state: B::block_start_spec(ctx, state.bypass_sig_state),
        }
    }

    fn on_block_start(ctx: &SignalExecutionContext, state: &mut BypassSignalState<P::State, B::State>) {
        P::on_block_start(ctx, &mut state.parent_sig_state);
        B::on_block_start(ctx, &mut state.bypass_sig_state);
    }

    fn tick_frame(ctx: &SignalExecutionContext, input: P::Input, state: &mut BypassSignalState<P::State, B::State>) -> (r: (
        P::Output,
        B::Output,
    )) {
        let parent_output = P::tick_frame(ctx, input, &mut state.parent_sig_state);
        let bypass_output = B::tick_frame(ctx, parent_output, &mut state.bypass_sig_state);
        (parent_output, bypass_output)
    }
}

impl<PC, BC> BypassSignalConfig<PC, BC> {
    /// Describe feeding the output of `parent` both out and through `bypass`.
    pub fn new(parent: PC, bypass: BC) -> (r: Self)
        ensures
            r.parent() == parent,
            r.bypass() == bypass,
    {
        BypassSignalConfig { parent_cfg: parent, bypass_cfg: bypass }
    }

    /// The parent description.
    pub closed spec fn parent(self) -> PC {
        self.parent_cfg
    }

    /// The bypass description.
    pub closed spec fn bypass(self) -> BC {
        self.bypass_cfg
    }
}

impl<PC: IntoSignal, BC: IntoSignal> IntoSignal for BypassSignalConfig<PC, BC> where
    BC::Signal: Signal<Input = <PC::Signal as Signal>::Output>,
    <PC::Signal as Signal>::Output: Copy,
 {
    type Signal = BypassSignal<PC::Signal, BC::Signal>;

    open spec fn succeeds(self) -> bool {
        self.parent().succeeds() && self.bypass().succeeds()
    }

    open spec fn failure(self) -> Error {
        if !self.parent().succeeds() {
            self.parent().failure()
        } else {
            self.bypass().failure()
        }
    }

    open spec fn initial_state(self) -> BypassSignalState<<PC::Signal as Signal>::State, <BC::Signal as Signal>::State> {
        BypassSignalState {
            parent_sig_state: self.parent().initial_state(),
            bypass_sig_state: self.bypass().initial_state(),
        }
    }

    fn into_signal(self) -> (r: Result<
        ReadySignal<
            BypassSignal<PC::Signal, BC::Signal>,
            BypassSignalState<<PC::Signal as Signal>::State, <BC::Signal as Signal>::State>,
        >,
        Error,
    >) {
        let par = match self.parent_cfg.into_signal() {
            Ok(s) => s,
            Err(e) => {
                return Err(e);
            },
        };
        let byp = match self.bypass_cfg.into_signal() {
            Ok(s) => s,
            Err(e) => {
                return Err(e);
            },
        };
        Ok(
            ReadySignal {
                state: BypassSignalState { parent_sig_state: par.state, bypass_sig_state: byp.state },
                signal: BypassSignal { parent_sig: par.signal, bypass_sig: byp.signal },
            },
        )
    }
}

/// Turns its input into its output, so that chains may start from something other than `()`.
pub struct StartFromInputSignal<T>(PhantomData<T>);

/// Description of a [StartFromInputSignal].
pub struct StartFromInputSignalConfig<T>(PhantomData<T>);

impl<T> StartFromInputSignalConfig<T> {
    /// Describe a chain starting from its input.
    pub fn new() -> (r: Self) {
        StartFromInputSignalConfig(PhantomData)
    }
}

impl<T> Signal for StartFromInputSignal<T> {
    type Input = T;
    type Output = T;
    type State = ();

    open spec fn tick_spec(ctx: SignalExecutionContext, input: T, state: ()) -> (T, ()) {
        (input, ())
    }

    open spec fn block_start_spec(ctx: SignalExecutionContext, state: ()) -> () {
        ()
    }

    fn on_block_start(ctx: &SignalExecutionContext, state: &mut ()) {
    }

    fn tick_frame(ctx: &SignalExecutionContext, input: T, state: &mut ()) -> (r: T) {
        input
    }
}

impl<T> IntoSignal for StartFromInputSignalConfig<T> {
    type Signal = StartFromInputSignal<T>;

    open spec fn succeeds(self) -> bool {
        true
    }

    open spec fn failure(self) -> Error {
        arbitrary()
    }

    open spec fn initial_state(self) -> () {
        ()
    }

    fn into_signal(self) -> (r: Result<ReadySignal<StartFromInputSignal<T>, ()>, Error>) {
        Ok(ReadySignal { signal: StartFromInputSignal(PhantomData), state: () })
    }
}

/// The state after `n` ticks of a signal with no input, starting from `state`.
pub open spec fn run_ticks<S: Signal<Input = ()>>(ctx: SignalExecutionContext, state: S::State, n: nat) -> S::State
    decreases n,
{
    if n == 0 {
        state
    } else {
        run_ticks::<S>(ctx, S::tick_spec(ctx, (), state).1, (n - 1) as nat)
    }
}

/// The outputs of `n` ticks of a signal with no input, starting from `state`.
pub open spec fn tick_outputs<S: Signal<Input = ()>>(ctx: SignalExecutionContext, state: S::State, n: nat) -> Seq<
    S::Output,
>
    decreases n,
{
    if n == 0 {
        Seq::empty()
    } else {
        let (out, next) = S::tick_spec(ctx, (), state);
        seq![out] + tick_outputs::<S>(ctx, next, (n - 1) as nat)
    }
}

/// Run one block of a signal with no input and hand back its outputs, one per frame: start the block, then
/// tick once per frame.
pub fn execute_block_collect<S: Signal<Input = ()>>(ctx: &SignalExecutionContext, state: &mut S::State) -> (outs: Vec<
    S::Output,
>)
    ensures
        outs@ == tick_outputs::<S>(*ctx, S::block_start_spec(*ctx, *old(state)), crate::config::BLOCK_SIZE as nat),
        outs@.len() == crate::config::BLOCK_SIZE,
        *final(state) == run_ticks::<S>(*ctx, S::block_start_spec(*ctx, *old(state)), crate::config::BLOCK_SIZE as nat),
{
    S::on_block_start(ctx, state);
    let ghost start = *state;
    let mut outs: Vec<S::Output> = Vec::new();
    let mut i: usize = 0;
    while i < crate::config::BLOCK_SIZE
        invariant
            i <= crate::config::BLOCK_SIZE,
            outs@.len() == i,
            outs@ + tick_outputs::<S>(*ctx, *state, (crate::config::BLOCK_SIZE - i) as nat) == tick_outputs::<S>(
                *ctx,
                start,
                crate::config::BLOCK_SIZE as nat,
            ),
            run_ticks::<S>(*ctx, *state, (crate::config::BLOCK_SIZE - i) as nat) == run_ticks::<S>(
                *ctx,
                start,
                crate::config::BLOCK_SIZE as nat,
            ),
        decreases crate::config::BLOCK_SIZE - i,
    {
        let ghost before = outs@;
        let ghost st = *state;
        let out = S::tick_frame(ctx, (), state);
        outs.push(out);
        proof {
            let rest = tick_outputs::<S>(*ctx, *state, (crate::config::BLOCK_SIZE - i - 1) as nat);
            assert(tick_outputs::<S>(*ctx, st, (crate::config::BLOCK_SIZE - i) as nat) == seq![out] + rest);
            assert(outs@ + rest =~= before + (seq![out] + rest));
        }
        i = i + 1;
    }
    proof {
        assert(outs@ + tick_outputs::<S>(*ctx, *state, 0) =~= outs@);
    }
    outs
}

/// Run one block of a signal with no input, discarding its outputs: start the block, then tick once per
/// frame.
pub fn execute_block<S: Signal<Input = ()>>(ctx: &SignalExecutionContext, state: &mut S::State)
    ensures
        *final(state) == run_ticks::<S>(*ctx, S::block_start_spec(*ctx, *old(state)), crate::config::BLOCK_SIZE as nat),
{
    S::on_block_start(ctx, state);
    let ghost start = *state;
    let mut i: usize = 0;
    while i < crate::config::BLOCK_SIZE
        invariant
            i <= crate::config::BLOCK_SIZE,
            run_ticks::<S>(*ctx, *state, (crate::config::BLOCK_SIZE - i) as nat) == run_ticks::<S>(
                *ctx,
                start,
                crate::config::BLOCK_SIZE as nat,
            ),
        decreases crate::config::BLOCK_SIZE - i,
    {
        let _ = S::tick_frame(ctx, (), state);
        i = i + 1;
    }
}

impl Signal for i8 {
    type Input = ();
    type Output = i8;
    type State = i8;

    open spec fn tick_spec(ctx: SignalExecutionContext, input: (), state: i8) -> (i8, i8) {
        (state, state)
    }

    open spec fn block_start_spec(ctx: SignalExecutionContext, state: i8) -> i8 {
        state
    }

    fn on_block_start(ctx: &SignalExecutionContext, state: &mut i8) {
    }

    fn tick_frame(ctx: &SignalExecutionContext, input: (), state: &mut i8) -> (r: i8) {
        *state
    }
}

impl IntoSignal for i8 {
    type Signal = i8;

    open spec fn succeeds(self) -> bool {
        true
    }

    open spec fn failure(self) -> Error {
        arbitrary()
    }

    open spec fn initial_state(self) -> i8 {
        self
    }

    fn into_signal(self) -> (r: Result<ReadySignal<i8, i8>, Error>) {
        Ok(ReadySignal { signal: self, state: self })
    }
}

impl Signal for i16 {
    type Input = ();
    type Output = i16;
    type State = i16;

    open spec fn tick_spec(ctx: SignalExecutionContext, input: (), state: i16) -> (i16, i16) {
        (state, state)
    }

    open spec fn block_start_spec(ctx: SignalExecutionContext, state: i16) -> i16 {
        state
    }

    fn on_block_start(ctx: &SignalExecutionContext, state: &mut i16) {
    }

    fn tick_frame(ctx: &SignalExecutionContext, input: (), state: &mut i16) -> (r: i16) {
        *state
    }
}

impl IntoSignal for i16 {
    type Signal = i16;

    open spec fn succeeds(self) -> bool {
        true
    }

    open spec fn failure(self) -> Error {
        arbitrary()
    }

    open spec fn initial_state(self) -> i16 {
        self
    }

    fn into_signal(self) -> (r: Result<ReadySignal<i16, i16>, Error>) {
        Ok(ReadySignal { signal: self, state: self })
    }
}

impl Signal for i32 {
    type Input = ();
    type Output = i32;
    type State = i32;

    open spec fn tick_spec(ctx: SignalExecutionContext, input: (), state: i32) -> (i32, i32) {
        (state, state)
    }

    open spec fn block_start_spec(ctx: SignalExecutionContext, state: i32) -> i32 {
        state
    }

    fn on_block_start(ctx: &SignalExecutionContext, state: &mut i32) {
    }

    fn tick_frame(ctx: &SignalExecutionContext, input: (), state: &mut i32) -> (r: i32) {
        *state
    }
}

impl IntoSignal for i32 {
    type Signal = i32;

    open spec fn succeeds(self) -> bool {
        true
    }

    open spec fn failure(self) -> Error {
        arbitrary()
    }

    open spec fn initial_state(self) -> i32 {
        self
    }

    fn into_signal(self) -> (r: Result<ReadySignal<i32, i32>, Error>) {
        Ok(ReadySignal { signal: self, state: self })
    }
}

impl Signal for i64 {
    type Input = ();
    type Output = i64;
    type State = i64;

    open spec fn tick_spec(ctx: SignalExecutionContext, input: (), state: i64) -> (i64, i64) {
        (state, state)
    }

    open spec fn block_start_spec(ctx: SignalExecutionContext, state: i64) -> i64 {
        state
    }

    fn on_block_start(ctx: &SignalExecutionContext, state: &mut i64) {
    }

    fn tick_frame(ctx: &SignalExecutionContext, input: (), state: &mut i64) -> (r: i64) {
        *state
    }
}

impl IntoSignal for i64 {
    type Signal = i64;

    open spec fn succeeds(self) -> bool {
        true
    }

    open spec fn failure(self) -> Error {
        arbitrary()
    }

    open spec fn initial_state(self) -> i64 {
        self
    }

    fn into_signal(self) -> (r: Result<ReadySignal<i64, i64>, Error>) {
        Ok(ReadySignal { signal: self, state: self })
    }
}

impl Signal for u8 {
    type Input = ();
    type Output = u8;
    type State = u8;

    open spec fn tick_spec(ctx: SignalExecutionContext, input: (), state: u8) -> (u8, u8) {
        (state, state)
    }

    open spec fn block_start_spec(ctx: SignalExecutionContext, state: u8) -> u8 {
        state
    }

    fn on_block_start(ctx: &SignalExecutionContext, state: &mut u8) {
    }

    fn tick_frame(ctx: &SignalExecutionContext, input: (), state: &mut u8) -> (r: u8) {
        *state
    }
}

impl IntoSignal for u8 {
    type Signal = u8;

    open spec fn succeeds(self) -> bool {
        true
    }

    open spec fn failure(self) -> Error {
        arbitrary()
    }

    open spec fn initial_state(self) -> u8 {
        self
    }

    fn into_signal(self) -> (r: Result<ReadySignal<u8, u8>, Error>) {
        Ok(ReadySignal { signal: self, state: self })
    }
}

impl Signal for u16 {
    type Input = ();
    type Output = u16;
    type State = u16;

    open spec fn tick_spec(ctx: SignalExecutionContext, input: (), state: u16) -> (u16, u16) {
        (state, state)
    }

    open spec fn block_start_spec(ctx: SignalExecutionContext, state: u16) -> u16 {
        state
    }

    fn on_block_start(ctx: &SignalExecutionContext, state: &mut u16) {
    }

    fn tick_frame(ctx: &SignalExecutionContext, input: (), state: &mut u16) -> (r: u16) {
        *state
    }
}

impl IntoSignal for u16 {
    type Signal = u16;

    open spec fn succeeds(self) -> bool {
        true
    }

    open spec fn failure(self) -> Error {
        arbitrary()
    }

    open spec fn initial_state(self) -> u16 {
        self
    }

    fn into_signal(self) -> (r: Result<ReadySignal<u16, u16>, Error>) {
        Ok(ReadySignal { signal: self, state: self })
    }
}

impl Signal for u32 {
    type Input = ();
    type Output = u32;
    type State = u32;

    open spec fn tick_spec(ctx: SignalExecutionContext, input: (), state: u32) -> (u32, u32) {
        (state, state)
    }

    open spec fn block_start_spec(ctx: SignalExecutionContext, state: u32) -> u32 {
        state
    }

    fn on_block_start(ctx: &SignalExecutionContext, state: &mut u32) {
    }

    fn tick_frame(ctx: &SignalExecutionContext, input: (), state: &mut u32) -> (r: u32) {
        *state
    }
}

impl IntoSignal for u32 {
    type Signal = u32;

    open spec fn succeeds(self) -> bool {
        true
    }

    open spec fn failure(self) -> Error {
        arbitrary()
    }

    open spec fn initial_state(self) -> u32 {
        self
    }

    fn into_signal(self) -> (r: Result<ReadySignal<u32, u32>, Error>) {
        Ok(ReadySignal { signal: self, state: self })
    }
}

impl Signal for u64 {
    type Input = ();
    type Output = u64;
    type State = u64;

    open spec fn tick_spec(ctx: SignalExecutionContext, input: (), state: u64) -> (u64, u64) {
        (state, state)
    }

    open spec fn block_start_spec(ctx: SignalExecutionContext, state: u64) -> u64 {
        state
    }

    fn on_block_start(ctx: &SignalExecutionContext, state: &mut u64) {
    }

    fn tick_frame(ctx: &SignalExecutionContext, input: (), state: &mut u64) -> (r: u64) {
        *state
    }
}

impl IntoSignal for u64 {
    type Signal = u64;

    open spec fn succeeds(self) -> bool {
        true
    }

    open spec fn failure(self) -> Error {
        arbitrary()
    }

    open spec fn initial_state(self) -> u64 {
        self
    }

    fn into_signal(self) -> (r: Result<ReadySignal<u64, u64>, Error>) {
        Ok(ReadySignal { signal: self, state: self })
    }
}

impl Signal for usize {
    type Input = ();
    type Output = usize;
    type State = usize;

    open spec fn tick_spec(ctx: SignalExecutionContext, input: (), state: usize) -> (usize, usize) {
        (state, state)
    }

    open spec fn block_start_spec(ctx: SignalExecutionContext, state: usize) -> usize {
        state
    }

    fn on_block_start(ctx: &SignalExecutionContext, state: &mut usize) {
    }

    fn tick_frame(ctx: &SignalExecutionContext, input: (), state: &mut usize) -> (r: usize) {
        *state
    }
}

impl IntoSignal for usize {
    type Signal = usize;

    open spec fn succeeds(self) -> bool {
        true
    }

    open spec fn failure(self) -> Error {
        arbitrary()
    }

    open spec fn initial_state(self) -> usize {
        self
    }

    fn into_signal(self) -> (r: Result<ReadySignal<usize, usize>, Error>) {
        Ok(ReadySignal { signal: self, state: self })
    }
}

impl Signal for isize {
    type Input = ();
    type Output = isize;
    type State = isize;

    open spec fn tick_spec(ctx: SignalExecutionContext, input: (), state: isize) -> (isize, isize) {
        (state, state)
    }

    open spec fn block_start_spec(ctx: SignalExecutionContext, state: isize) -> isize {
        state
    }

    fn on_block_start(ctx: &SignalExecutionContext, state: &mut isize) {
    }

    fn tick_frame(ctx: &SignalExecutionContext, input: (), state: &mut isize) -> (r: isize) {
        *state
    }
}

impl IntoSignal for isize {
    type Signal = isize;

    open spec fn succeeds(self) -> bool {
        true
    }

    open spec fn failure(self) -> Error {
        arbitrary()
    }

    open spec fn initial_state(self) -> isize {
        self
    }

    fn into_signal(self) -> (r: Result<ReadySignal<isize, isize>, Error>) {
        Ok(ReadySignal { signal: self, state: self })
    }
}

/// Chaining is associative: `(a then b) then c` and `a then (b then c)` produce the same output, and the same
/// states for each of the three signals.
pub proof fn lemma_and_then_associative<A: Signal, B: Signal<Input = A::Output>, C: Signal<Input = B::Output>>(
    ctx: SignalExecutionContext,
    input: A::Input,
    sa: A::State,
    sb: B::State,
    sc: C::State,
)
    ensures
        ({
            let (o1, st1) = <AndThen<AndThen<A, B>, C> as Signal>::tick_spec(ctx, input, ((sa, sb), sc));
            let (o2, st2) = <AndThen<A, AndThen<B, C>> as Signal>::tick_spec(ctx, input, (sa, (sb, sc)));
            &&& o1 == o2
            &&& st1.0.0 == st2.0
            &&& st1.0.1 == st2.1.0
            &&& st1.1 == st2.1.1
        }),
{
}

/// A constant signal outputs its value on every tick and never changes.
pub proof fn lemma_constant_signal(ctx: SignalExecutionContext, value: u64, n: nat)
    ensures
        <u64 as Signal>::tick_spec(ctx, (), value) == (value, value),
        run_ticks::<u64>(ctx, value, n) == value,
    decreases n,
{
    if n > 0 {
        lemma_constant_signal(ctx, value, (n - 1) as nat);
    }
}

} // verus!
