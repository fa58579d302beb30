use synthizer::batch::{Command, SynthesizerState};
use synthizer::program::Program;
use synthizer::unique_id::UniqueIdAllocator;
use synthizer::config::BLOCK_SIZE;
use synthizer::output_block::OutputBlock;
use synthizer::signal_maps::FrameFunction;

#[test]
fn hands_out_frames_in_pieces() {
    let mut block = OutputBlock::new(0i32);
    assert_eq!(block.remaining(), 0);
    block.start_block(0);
    assert_eq!(block.remaining(), BLOCK_SIZE);
    for i in 0..BLOCK_SIZE {
        block.set_frame(i, (i as i32, -(i as i32)));
    }
    assert_eq!(block.frame(3), (3, -3));
    let id = FrameFunction::new(|x: i32| x as i64);
    let mut dest = vec![0i64; 6];
    // Two samples of room at the front are skipped by starting at offset 2.
    assert_eq!(block.read_into(&mut dest, 2, &id), 6);
    assert_eq!(dest, vec![0, 0, 0, 0, 1, -1]);
    assert_eq!(block.remaining(), BLOCK_SIZE - 2);
    let mut dest = vec![0i64; 4];
    assert_eq!(block.read_into(&mut dest, 0, &id), 4);
    assert_eq!(dest, vec![2, -2, 3, -3]);
}

#[test]
fn stops_at_the_end_of_the_block() {
    let mut block = OutputBlock::new(1u8);
    block.start_block(7);
    let conv = FrameFunction::new(|x: u8| x as u16 * 2);
    let mut dest = vec![0u16; 2 * BLOCK_SIZE + 4];
    assert_eq!(block.read_into(&mut dest, 0, &conv), 2 * BLOCK_SIZE);
    assert_eq!(block.remaining(), 0);
    assert!(dest[..2 * BLOCK_SIZE].iter().all(|x| *x == 14));
    assert_eq!(dest[2 * BLOCK_SIZE..], [0, 0, 0, 0]);
    // Nothing remains, so nothing more is written.
    assert_eq!(block.read_into(&mut dest, 2 * BLOCK_SIZE, &conv), 2 * BLOCK_SIZE);
}

#[test]
fn fill_output_hands_out_the_rest_then_runs_new_blocks() {
    let mut state: SynthesizerState<u8, u32, u8, i32> = SynthesizerState::new();
    state.apply_batch(vec![Command::Mount {
        id: 1,
        program: Program::new(UniqueIdAllocator::new().fresh()),
        buses: vec![(7, 5)],
        wavetables: vec![],
    }]);
    let mut block = OutputBlock::new(0i32);
    block.start_block(0);
    for i in 0..BLOCK_SIZE {
        block.set_frame(i, (i as i32, 100 + i as i32));
    }
    let conv = FrameFunction::new(|x: i32| x as i64);
    let reset = FrameFunction::new(|_b: u32| 0u32);
    // Hand out all but the last two frames, so that those two remain.
    let mut first = vec![0i64; 2 * (BLOCK_SIZE - 2)];
    assert_eq!(block.read_into(&mut first, 0, &conv), 2 * (BLOCK_SIZE - 2));
    let mut dest = vec![9i64; 8];
    assert!(state.fill_output(&mut block, &mut dest, &conv, -1, &reset));
    let a = (BLOCK_SIZE - 2) as i64;
    assert_eq!(dest, vec![a, 100 + a, a + 1, 101 + a, -1, -1, -1, -1]);
    assert_eq!(state.programs().blocks_computed(), 1);
    let removed = state.apply_batch(vec![Command::DropBus(7)]);
    // The bus was reset when the new block started.
    assert_eq!(removed.buses[0].value, 0);
}
