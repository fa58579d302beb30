//! Signals that pass values through a closure: on the way out of a parent signal ([MapSignal]) or on the way in
//! ([MapInputSignal]).
//!
//! The closures are functions: one result for each argument, for every argument.  What such a closure returns
//! is named by [applied].
use crate::error::Error;
use crate::signals::{IntoSignal, ReadySignal, Signal, SignalExecutionContext};
use std::marker::PhantomData;
use vstd::prelude::*;

verus! {

/// `f` accepts every argument and gives one result for each.
pub open spec fn is_function<A, B, F: Fn(A) -> B>(f: F) -> bool {
    &&& forall|a: A| #[trigger] call_requires(f, (a,))
    &&& forall|a: A, b1: B, b2: B| #[trigger] call_ensures(f, (a,), b1) && #[trigger] call_ensures(f, (a,), b2) ==> b1 == b2
}

/// The result of `f` on `a`.
pub open spec fn applied<A, B, F: Fn(A) -> B>(f: F, a: A) -> B {
    choose|b: B| call_ensures(f, (a,), b)
}

/// Call `f` on `a`.
fn apply<A, B, F: Fn(A) -> B>(f: &F, a: A) -> (r: B)
    requires
        is_function(*f),
    ensures
        r == applied(*f, a),
{
    let r = f(a);
    r
}

/// A closure known to be a function (see [is_function]).
#[verifier::reject_recursive_types(A)]
#[verifier::reject_recursive_types(B)]
pub struct FrameFunction<F: Fn(A) -> B, A, B> {
    f: F,
    _phantom: PhantomData<(A, B)>,
}

impl<F: Fn(A) -> B, A, B> FrameFunction<F, A, B> {
    /// The closure is a function.
    #[verifier::type_invariant]
    closed spec fn is_total_function(self) -> bool {
        is_function(self.f)
    }

    /// The closure.
    pub closed spec fn closure(self) -> F {
        self.f
    }

    /// Wrap `f`, which must be a function.
    pub fn new(f: F) -> (r: Self)
        requires
            is_function(f),
        ensures
            r.closure() == f,
    {
        FrameFunction { f, _phantom: PhantomData }
    }

    /// The result of the closure on `a`.
    pub fn call(&self, a: A) -> (r: B)
        ensures
            r == applied(self.closure(), a),
    {
        proof {
            use_type_invariant(self);
        }
        apply(&self.f, a)
    }
}

/// Applies a closure to every output of a parent signal.
pub struct MapSignal<ParSig, F, O>(PhantomData<(ParSig, F, O)>);

/// State of a [MapSignal]: the closure, from `A` to `B`, and the parent's state.
#[verifier::reject_recursive_types(A)]
#[verifier::reject_recursive_types(B)]
pub struct MapSignalState<ParState, F: Fn(A) -> B, A, B> {
    /// The closure.
    pub closure: FrameFunction<F, A, B>,
    /// The parent's state.
    pub parent_state: ParState,
}

/// Description of a [MapSignal].
#[verifier::reject_recursive_types(A)]
#[verifier::reject_recursive_types(B)]
pub struct MapSignalConfig<ParCfg, F: Fn(A) -> B, A, B> {
    parent: ParCfg,
    closure: FrameFunction<F, A, B>,
}

impl<ParCfg, F: Fn(A) -> B, A, B> MapSignalConfig<ParCfg, F, A, B> {
    /// Describe mapping `closure` over the outputs of `parent`; `closure` must be a function.
    pub fn new(parent: ParCfg, closure: F) -> (r: Self)
        requires
            is_function(closure),
        ensures
            r.parent_view() == parent,
            r.closure_view() == closure,
    {
        MapSignalConfig { parent, closure: FrameFunction::new(closure) }
    }

    /// The parent description.
    pub closed spec fn parent_view(self) -> ParCfg {
        self.parent
    }

    /// The closure.
    pub closed spec fn closure_view(self) -> F {
        self.closure.closure()
    }

    /// The closure, as held.
    pub closed spec fn closure_fn(self) -> FrameFunction<F, A, B> {
        self.closure
    }
}

impl<ParSig: Signal, F: Fn(ParSig::Output) -> O, O> Signal for MapSignal<ParSig, F, O> {
    type Input = ParSig::Input;
    type Output = O;
    type State = MapSignalState<ParSig::State, F, ParSig::Output, O>;

    open spec fn tick_spec(
        ctx: SignalExecutionContext,
        input: ParSig::Input,
        state: MapSignalState<ParSig::State, F, ParSig::Output, O>,
    ) -> (O, MapSignalState<ParSig::State, F, ParSig::Output, O>) {
        let (mid, next) = ParSig::tick_spec(ctx, input, state.parent_state);
        (applied(state.closure.closure(), mid), MapSignalState { closure: state.closure, parent_state: next })
    }

    open spec fn block_start_spec(
        ctx: SignalExecutionContext,
        state: MapSignalState<ParSig::State, F, ParSig::Output, O>,
    ) -> MapSignalState<ParSig::State, F, ParSig::Output, O> {
        MapSignalState { closure: state.closure, parent_state: ParSig::block_start_spec(ctx, state.parent_state) }
    }

    fn on_block_start(ctx: &SignalExecutionContext, state: &mut MapSignalState<ParSig::State, F, ParSig::Output, O>) {
        ParSig::on_block_start(ctx, &mut state.parent_state);
    }

    fn tick_frame(
        ctx: &SignalExecutionContext,
        input: ParSig::Input,
        state: &mut MapSignalState<ParSig::State, F, ParSig::Output, O>,
    ) -> (r: O) {
        let parent_output = ParSig::tick_frame(ctx, input, &mut state.parent_state);
        state.closure.call(parent_output)
    }
}

impl<ParCfg: IntoSignal, F: Fn(<ParCfg::Signal as Signal>::Output) -> O, O> IntoSignal for MapSignalConfig<
    ParCfg,
    F,
    <ParCfg::Signal as Signal>::Output,
    O,
> {
    type Signal = MapSignal<ParCfg::Signal, F, O>;

    open spec fn succeeds(self) -> bool {
        self.parent_view().succeeds()
    }

    open spec fn failure(self) -> Error {
        self.parent_view().failure()
    }

    open spec fn initial_state(self) -> MapSignalState<
        <ParCfg::Signal as Signal>::State,
        F,
        <ParCfg::Signal as Signal>::Output,
        O,
    > {
        MapSignalState { closure: self.closure_fn(), parent_state: self.parent_view().initial_state() }
    }

    fn into_signal(self) -> (r: Result<
        ReadySignal<
            MapSignal<ParCfg::Signal, F, O>,
            MapSignalState<<ParCfg::Signal as Signal>::State, F, <ParCfg::Signal as Signal>::Output, O>,
        >,
        Error,
    >) {
        let par = match self.parent.into_signal() {
            Ok(p) => p,
            Err(e) => {
                return Err(e);
            },
        };
        Ok(ReadySignal { signal: MapSignal(PhantomData), state: MapSignalState { closure: self.closure, parent_state: par.state } })
    }
}

/// Applies a closure to every input before it reaches a parent signal.
pub struct MapInputSignal<ParSig, F, I>(PhantomData<(ParSig, F, I)>);

/// State of a [MapInputSignal]: the closure, from `I` to the parent's input `P`, and the parent's state.
#[verifier::reject_recursive_types(I)]
#[verifier::reject_recursive_types(P)]
pub struct MapInputSignalState<ParState, F: Fn(I) -> P, I, P> {
    /// The closure.
    pub closure: FrameFunction<F, I, P>,
    /// The parent's state.
    pub parent_state: ParState,
}

/// Description of a [MapInputSignal].
#[verifier::reject_recursive_types(I)]
#[verifier::reject_recursive_types(P)]
pub struct MapInputSignalConfig<ParCfg, F: Fn(I) -> P, I, P> {
    parent: ParCfg,
    closure: FrameFunction<F, I, P>,
}

impl<ParCfg, F: Fn(I) -> P, I, P> MapInputSignalConfig<ParCfg, F, I, P> {
    /// Describe mapping `closure` over the inputs of `parent`; `closure` must be a function.
    pub fn new(parent: ParCfg, closure: F) -> (r: Self)
        requires
            is_function(closure),
        ensures
            r.parent_view() == parent,
            r.closure_view() == closure,
    {
        MapInputSignalConfig { parent, closure: FrameFunction::new(closure) }
    }

    /// The parent description.
    pub closed spec fn parent_view(self) -> ParCfg {
        self.parent
    }

    /// The closure.
    pub closed spec fn closure_view(self) -> F {
        self.closure.closure()
    }

    /// The closure, as held.
    pub closed spec fn closure_fn(self) -> FrameFunction<F, I, P> {
        self.closure
    }
}

impl<ParSig: Signal, F: Fn(I) -> ParSig::Input, I> Signal for MapInputSignal<ParSig, F, I> {
    type Input = I;
    type Output = ParSig::Output;
    type State = MapInputSignalState<ParSig::State, F, I, ParSig::Input>;

    open spec fn tick_spec(
        ctx: SignalExecutionContext,
        input: I,
        state: MapInputSignalState<ParSig::State, F, I, ParSig::Input>,
    ) -> (ParSig::Output, MapInputSignalState<ParSig::State, F, I, ParSig::Input>) {
        let (out, next) = ParSig::tick_spec(ctx, applied(state.closure.closure(), input), state.parent_state);
        (out, MapInputSignalState { closure: state.closure, parent_state: next })
    }

    open spec fn block_start_spec(
        ctx: SignalExecutionContext,
        state: MapInputSignalState<ParSig::State, F, I, ParSig::Input>,
    ) -> MapInputSignalState<ParSig::State, F, I, ParSig::Input> {
        MapInputSignalState { closure: state.closure, parent_state: ParSig::block_start_spec(ctx, state.parent_state) }
    }

    fn on_block_start(ctx: &SignalExecutionContext, state: &mut MapInputSignalState<ParSig::State, F, I, ParSig::Input>) {
        ParSig::on_block_start(ctx, &mut state.parent_state);
    }

    fn tick_frame(
        ctx: &SignalExecutionContext,
        input: I,
        state: &mut MapInputSignalState<ParSig::State, F, I, ParSig::Input>,
    ) -> (r: ParSig::Output) {
        let mapped = state.closure.call(input);
        ParSig::tick_frame(ctx, mapped, &mut state.parent_state)
    }
}

impl<ParCfg: IntoSignal, F: Fn(I) -> <ParCfg::Signal as Signal>::Input, I> IntoSignal for MapInputSignalConfig<
    ParCfg,
    F,
    I,
    <ParCfg::Signal as Signal>::Input,
> {
    type Signal = MapInputSignal<ParCfg::Signal, F, I>;

    open spec fn succeeds(self) -> bool {
        self.parent_view().succeeds()
    }

    open spec fn failure(self) -> Error {
        self.parent_view().failure()
    }

    open spec fn initial_state(self) -> MapInputSignalState<
        <ParCfg::Signal as Signal>::State,
        F,
        I,
        <ParCfg::Signal as Signal>::Input,
    > {
        MapInputSignalState { closure: self.closure_fn(), parent_state: self.parent_view().initial_state() }
    }

    fn into_signal(self) -> (r: Result<
        ReadySignal<
            MapInputSignal<ParCfg::Signal, F, I>,
            MapInputSignalState<<ParCfg::Signal as Signal>::State, F, I, <ParCfg::Signal as Signal>::Input>,
        >,
        Error,
    >) {
        let par = match self.parent.into_signal() {
            Ok(p) => p,
            Err(e) => {
                return Err(e);
            },
        };
        Ok(
            ReadySignal {
                signal: MapInputSignal(PhantomData),
                state: MapInputSignalState { closure: self.closure, parent_state: par.state },
            },
        )
    }
}

} // verus!
