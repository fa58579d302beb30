use synthizer::signal_maps::{MapInputSignal, MapInputSignalConfig, MapSignal, MapSignalConfig};
use synthizer::map_frame::{ChannelFunction, MapFrameSignal, MapFrameSignalConfig};
use synthizer::signals::{IntoSignal, Signal, SignalExecutionContext, StartFromInputSignal, StartFromInputSignalConfig};

#[test]
fn map_applies_to_outputs() {
    let cfg = MapSignalConfig::new(StartFromInputSignalConfig::<u32>::new(), |x: u32| x * 3 + 1);
    let mut ready = cfg.into_signal().ok().unwrap();
    let ctx = SignalExecutionContext { time_in_blocks: 0 };
    let _: &MapSignal<StartFromInputSignal<u32>, _, u32> = &ready.signal;
    assert_eq!(tick(&ctx, &ready.signal, 4, &mut ready.state), 13);
    assert_eq!(tick(&ctx, &ready.signal, 0, &mut ready.state), 1);
}

#[test]
fn map_input_applies_to_inputs() {
    let cfg = MapInputSignalConfig::new(StartFromInputSignalConfig::<i64>::new(), |x: i64| x - 10);
    let mut ready = cfg.into_signal().ok().unwrap();
    let ctx = SignalExecutionContext { time_in_blocks: 3 };
    let _: &MapInputSignal<StartFromInputSignal<i64>, _, i64> = &ready.signal;
    assert_eq!(tick(&ctx, &ready.signal, 15, &mut ready.state), 5);
    assert_eq!(tick(&ctx, &ready.signal, -5, &mut ready.state), -15);
}

fn tick<S: Signal>(ctx: &SignalExecutionContext, _sig: &S, input: S::Input, state: &mut S::State) -> S::Output {
    S::on_block_start(ctx, state);
    S::tick_frame(ctx, input, state)
}

#[test]
fn map_frame_applies_per_channel() {
    let gains = [2i64, -1, 10];
    let cfg = MapFrameSignalConfig::new(StartFromInputSignalConfig::<[i64; 3]>::new(), move |ch: usize, x: &i64| {
        *x * gains[ch]
    });
    let mut ready = cfg.into_signal().ok().unwrap();
    let ctx = SignalExecutionContext { time_in_blocks: 0 };
    let _: &MapFrameSignal<i64, _, StartFromInputSignal<[i64; 3]>> = &ready.signal;
    assert_eq!(tick(&ctx, &ready.signal, [1, 2, 3], &mut ready.state), [2, -2, 30]);
    assert_eq!(tick(&ctx, &ready.signal, [0, -4, 1], &mut ready.state), [0, 4, 10]);
}

#[test]
fn channel_function_maps_frames() {
    let f = ChannelFunction::new(|ch: usize, x: &u32| *x + ch as u32);
    assert_eq!(f.map_frame([5u32, 5, 5, 5]), [5, 6, 7, 8]);
    assert_eq!(f.call(2, &1), 3);
}
