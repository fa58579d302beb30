//! A signal that passes each channel of every frame of a parent signal through a closure of the channel's index
//! and value, for example to scale every channel by its own gain.
//!
//! Frames are arrays with one entry per channel.  The closure is a function: one result for each channel index
//! and value, for every index and value.
use crate::error::Error;
use crate::signals::{IntoSignal, ReadySignal, Signal, SignalExecutionContext};
use std::marker::PhantomData;
use vstd::prelude::*;

verus! {

/// `f` accepts every channel index and value, and gives one result for each.
pub open spec fn is_channel_function<T, F: Fn(usize, &T) -> T>(f: F) -> bool {
    &&& forall|i: usize, x: T| #[trigger] call_requires(f, (i, &x))
    &&& forall|i: usize, x: T, y1: T, y2: T|
        #[trigger] call_ensures(f, (i, &x), y1) && #[trigger] call_ensures(f, (i, &x), y2) ==> y1 == y2
}

/// The result of `f` on channel `i` holding `x`.
pub open spec fn channel_applied<T, F: Fn(usize, &T) -> T>(f: F, i: usize, x: T) -> T {
    choose|y: T| call_ensures(f, (i, &x), y)
}

/// Channel `i` of `out` is `f` applied to `i` and channel `i` of `frame`, for every channel.
pub open spec fn maps_channels<T, F: Fn(usize, &T) -> T, const N: usize>(f: F, frame: [T; N], out: [T; N]) -> bool {
    forall|i: int| 0 <= i < N ==> #[trigger] out[i] == channel_applied(f, i as usize, frame[i])
}

/// The frame whose channel `i` is `f` applied to `i` and channel `i` of `frame`.
pub open spec fn mapped_frame<T, F: Fn(usize, &T) -> T, const N: usize>(f: F, frame: [T; N]) -> [T; N] {
    choose|out: [T; N]| #[trigger] maps_channels(f, frame, out)
}

/// A closure known to be a channel function (see [is_channel_function]).
#[verifier::reject_recursive_types(T)]
pub struct ChannelFunction<F: Fn(usize, &T) -> T, T> {
    f: F,
    _phantom: PhantomData<T>,
}

impl<F: Fn(usize, &T) -> T, T> ChannelFunction<F, T> {
    /// The closure is a channel function.
    #[verifier::type_invariant]
    closed spec fn is_total_function(self) -> bool {
        is_channel_function(self.f)
    }

    /// The closure.
    pub closed spec fn closure(self) -> F {
        self.f
    }

    /// Wrap `f`, which must be a channel function.
    pub fn new(f: F) -> (r: Self)
        requires
            is_channel_function(f),
        ensures
            r.closure() == f,
    {
        ChannelFunction { f, _phantom: PhantomData }
    }

    /// The result of the closure on channel `i` holding `x`.
    pub fn call(&self, i: usize, x: &T) -> (r: T)
        ensures
            r == channel_applied(self.closure(), i, *x),
    {
        proof {
            use_type_invariant(self);
        }
        let r = (self.f)(i, x);
        r
    }

    /// Replace every channel of `frame` by the closure applied to its index and value.
    pub fn map_frame<const N: usize>(&self, frame: [T; N]) -> (r: [T; N]) where T: Copy
        ensures
            r == mapped_frame(self.closure(), frame),
            forall|i: int| 0 <= i < N ==> #[trigger] r[i] == channel_applied(self.closure(), i as usize, frame[i]),
    {
        let mut out = frame;
        let mut i: usize = 0;
        while i < N
            invariant
                i <= N,
                forall|j: int| 0 <= j < i ==> #[trigger] out[j] == channel_applied(self.closure(), j as usize, frame[j]),
                forall|j: int| i <= j < N ==> #[trigger] out[j] == frame[j],
            decreases N - i,
        {
            let x = out[i];
            let y = self.call(i, &x);
            out[i] = y;
            i = i + 1;
        }
        proof {
            assert(maps_channels(self.closure(), frame, out));
            let m = mapped_frame(self.closure(), frame);
            assert(maps_channels(self.closure(), frame, m));
            assert(out =~= m);
        }
        out
    }
}

/// Applies a closure to each channel of every frame of a parent signal.
pub struct MapFrameSignal<T, F, ParSig>(PhantomData<(T, F, ParSig)>);

/// State of a [MapFrameSignal]: the closure and the parent's state.
#[verifier::reject_recursive_types(T)]
pub struct MapFrameSignalState<ParState, F: Fn(usize, &T) -> T, T> {
    /// The closure.
    pub closure: ChannelFunction<F, T>,
    /// The parent's state.
    pub par_state: ParState,
}

/// Description of a [MapFrameSignal].
#[verifier::reject_recursive_types(T)]
pub struct MapFrameSignalConfig<T, F: Fn(usize, &T) -> T, ParSigCfg> {
    parent_config: ParSigCfg,
    closure: ChannelFunction<F, T>,
}

impl<T, F: Fn(usize, &T) -> T, ParSigCfg> MapFrameSignalConfig<T, F, ParSigCfg> {
    /// Describe mapping `closure` over the channels of every frame of `parent_config`; `closure` must be a
    /// channel function.
    pub fn new(parent_config: ParSigCfg, closure: F) -> (r: Self)
        requires
            is_channel_function(closure),
        ensures
            r.parent_view() == parent_config,
            r.closure_view() == closure,
    {
        MapFrameSignalConfig { parent_config, closure: ChannelFunction::new(closure) }
    }

    /// The parent description.
    pub closed spec fn parent_view(self) -> ParSigCfg {
        self.parent_config
    }

    /// The closure.
    pub closed spec fn closure_view(self) -> F {
        self.closure.closure()
    }

    /// The closure, as held.
    pub closed spec fn closure_fn(self) -> ChannelFunction<F, T> {
        self.closure
    }
}

impl<T: Copy, F: Fn(usize, &T) -> T, ParSig: Signal<Output = [T; N]>, const N: usize> Signal for MapFrameSignal<
    T,
    F,
    ParSig,
> {
    type Input = ParSig::Input;
    type Output = [T; N];
    type State = MapFrameSignalState<ParSig::State, F, T>;

    open spec fn tick_spec(ctx: SignalExecutionContext, input: ParSig::Input, state: MapFrameSignalState<
        ParSig::State,
        F,
        T,
    >) -> ([T; N], MapFrameSignalState<ParSig::State, F, T>) {
        let (frame, next) = ParSig::tick_spec(ctx, input, state.par_state);
        (mapped_frame(state.closure.closure(), frame), MapFrameSignalState { closure: state.closure, par_state: next })
    }

    open spec fn block_start_spec(ctx: SignalExecutionContext, state: MapFrameSignalState<ParSig::State, F, T>) -> MapFrameSignalState<
        ParSig::State,
        F,
        T,
    > {
        MapFrameSignalState { closure: state.closure, par_state: ParSig::block_start_spec(ctx, state.par_state) }
    }

    fn on_block_start(ctx: &SignalExecutionContext, state: &mut MapFrameSignalState<ParSig::State, F, T>) {
        ParSig::on_block_start(ctx, &mut state.par_state);
    }

    fn tick_frame(
        ctx: &SignalExecutionContext,
        input: ParSig::Input,
        state: &mut MapFrameSignalState<ParSig::State, F, T>,
    ) -> (r: [T; N]) {
        let frame = ParSig::tick_frame(ctx, input, &mut state.par_state);
        state.closure.map_frame(frame)
    }
}

impl<T: Copy, F: Fn(usize, &T) -> T, ParSigCfg: IntoSignal, const N: usize> IntoSignal for MapFrameSignalConfig<
    T,
    F,
    ParSigCfg,
> where ParSigCfg::Signal: Signal<Output = [T; N]> {
    type Signal = MapFrameSignal<T, F, ParSigCfg::Signal>;

    open spec fn succeeds(self) -> bool {
        self.parent_view().succeeds()
    }

    open spec fn failure(self) -> Error {
        self.parent_view().failure()
    }

    open spec fn initial_state(self) -> MapFrameSignalState<<ParSigCfg::Signal as Signal>::State, F, T> {
        MapFrameSignalState { closure: self.closure_fn(), par_state: self.parent_view().initial_state() }
    }

    fn into_signal(self) -> (r: Result<
        ReadySignal<MapFrameSignal<T, F, ParSigCfg::Signal>, MapFrameSignalState<<ParSigCfg::Signal as Signal>::State, F, T>>,
        Error,
    >) {
        let par = match self.parent_config.into_signal() {
            Ok(p) => p,
            Err(e) => {
                return Err(e);
            },
        };
        Ok(
            ReadySignal {
                signal: MapFrameSignal(PhantomData),
                state: MapFrameSignalState { closure: self.closure, par_state: par.state },
            },
        )
    }
}

} // verus!
