use synthizer::batch::{Command, SynthesizerState};
use synthizer::config::BLOCK_SIZE;
use synthizer::output_block::OutputBlock;
use synthizer::program::{AudioOutputSignalConfig, Program};
use synthizer::signal_maps::{FrameFunction, MapSignalConfig};
use synthizer::unique_id::UniqueIdAllocator;

type State = SynthesizerState<u8, u8, u8, i64>;

fn tone_program(level: i64) -> Program<i64> {
    let mut program = Program::<i64>::new(UniqueIdAllocator::new().fresh());
    let stereo = MapSignalConfig::new(level, |x: i64| (x, 2 * x));
    let add = FrameFunction::new(|(a, b): ((i64, i64), (i64, i64))| (a.0 + b.0, a.1 + b.1));
    assert!(program.add_audio_output(AudioOutputSignalConfig::new(stereo, add)).is_ok());
    program
}

fn mounted(levels: &[i64]) -> State {
    let mut state = State::new();
    let commands = levels
        .iter()
        .enumerate()
        .map(|(i, l)| Command::Mount { id: i as u64 + 1, program: tone_program(*l), buses: vec![], wavetables: vec![] })
        .collect();
    state.apply_batch(commands);
    state
}

#[test]
fn programs_write_the_output_block() {
    let mut state = mounted(&[3, 4]);
    let mut block = OutputBlock::new(0i64);
    let id = FrameFunction::new(|x: i64| x);
    let reset = FrameFunction::new(|b: u8| b);
    let mut dest = vec![0i64; 6];
    assert!(state.fill_output(&mut block, &mut dest, &id, 0, &reset));
    // Both programs mix into the block: (3 + 4, 6 + 8) on every frame.
    assert_eq!(dest, vec![7, 14, 7, 14, 7, 14]);
    assert_eq!(block.remaining(), BLOCK_SIZE - 3);
    assert_eq!(state.programs().blocks_computed(), 1);
}

#[test]
fn filling_in_pieces_gives_the_same_samples() {
    let id = FrameFunction::new(|x: i64| x);
    let reset = FrameFunction::new(|b: u8| b);
    let total = 2 * BLOCK_SIZE * 2 + 6;

    let mut once = mounted(&[1]);
    let mut block1 = OutputBlock::new(0i64);
    let mut all = vec![0i64; total];
    assert!(once.fill_output(&mut block1, &mut all, &id, 0, &reset));

    let mut pieces = mounted(&[1]);
    let mut block2 = OutputBlock::new(0i64);
    let mut joined = Vec::new();
    for len in [2 * BLOCK_SIZE + 100, 4, total - 2 * BLOCK_SIZE - 104] {
        let mut part = vec![0i64; len];
        assert!(pieces.fill_output(&mut block2, &mut part, &id, 0, &reset));
        joined.extend_from_slice(&part);
    }
    assert_eq!(joined, all);
    assert_eq!(once.programs().blocks_computed(), pieces.programs().blocks_computed());
}

#[test]
fn two_blocks_rendered_and_one_frame_less_than_a_block_left() {
    // An empty synthesizer renders silence: two blocks for 2 * B + 2 samples, leaving B - 1 frames.
    let mut state = State::new();
    let mut block = OutputBlock::new(0i64);
    let id = FrameFunction::new(|x: i64| x);
    let reset = FrameFunction::new(|b: u8| b);
    let mut dest = vec![1i64; 2 * BLOCK_SIZE + 2];
    assert!(state.fill_output(&mut block, &mut dest, &id, 0, &reset));
    assert_eq!(dest, vec![0i64; 2 * BLOCK_SIZE + 2]);
    assert_eq!(state.programs().blocks_computed(), 2);
    assert_eq!(block.remaining(), BLOCK_SIZE - 1);
}
