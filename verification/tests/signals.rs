use synthizer::signals::{
    execute_block, AndThen, AndThenConfig, BypassSignalConfig, IntoSignal, JoinSignalConfig, NullSignal, Signal,
    SignalExecutionContext, StartFromInputSignalConfig,
};

fn ctx() -> SignalExecutionContext {
    SignalExecutionContext { time_in_blocks: 0 }
}

fn tick<S: Signal>(_sig: &S, input: S::Input, state: &mut S::State) -> S::Output {
    S::tick_frame(&ctx(), input, state)
}

#[test]
fn constants_repeat() {
    let mut ready = 7u64.into_signal().ok().unwrap();
    for _ in 0..3 {
        assert_eq!(tick(&ready.signal, (), &mut ready.state), 7);
    }
    let mut state = 9i32;
    execute_block::<i32>(&ctx(), &mut state);
    assert_eq!(state, 9);
}

#[test]
fn and_then_feeds_left_into_right() {
    let cfg = AndThenConfig::new(5u8, StartFromInputSignalConfig::<u8>::new());
    let mut ready = cfg.into_signal().ok().unwrap();
    let _: &AndThen<u8, _> = &ready.signal;
    assert_eq!(tick(&ready.signal, (), &mut ready.state), 5);
}

#[test]
fn join_runs_side_by_side() {
    let cfg = JoinSignalConfig::new(1u16, 2i64);
    let mut ready = cfg.into_signal().ok().unwrap();
    assert_eq!(tick(&ready.signal, ((), ()), &mut ready.state), (1, 2));
}

#[test]
fn bypass_outputs_before_and_after() {
    let cfg = BypassSignalConfig::new(3u32, StartFromInputSignalConfig::<u32>::new());
    let mut ready = cfg.into_signal().ok().unwrap();
    assert_eq!(tick(&ready.signal, (), &mut ready.state), (3, 3));
}

#[test]
fn null_signal_does_nothing() {
    let mut ready = NullSignal::new().into_signal().ok().unwrap();
    tick(&ready.signal, (), &mut ready.state);
    execute_block::<NullSignal>(&ctx(), &mut ready.state);
}
