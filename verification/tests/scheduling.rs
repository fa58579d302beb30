use synthizer::output_block::silent_frames;
use synthizer::audio_thread::AudioThreadState;
use synthizer::program::{BusHandle, BusLinkType, Program};
use synthizer::topology::topological_order;
use synthizer::unique_id::UniqueIdAllocator;

fn position(order: &[u64], id: u64) -> usize {
    order.iter().position(|x| *x == id).expect("program missing from the order")
}

#[test]
fn kahn_orders_a_chain() {
    let programs = vec![3u64, 1, 2];
    let deps = vec![(1u64, vec![2u64]), (2, vec![3])];
    let order = topological_order(&programs, &deps).unwrap();
    assert_eq!(order, vec![1, 2, 3]);
}

#[test]
fn kahn_refuses_a_cycle() {
    let programs = vec![1u64, 2, 3];
    let deps = vec![(1u64, vec![2u64]), (2, vec![3]), (3, vec![1])];
    assert_eq!(topological_order(&programs, &deps), None);
}

#[test]
fn kahn_refuses_a_self_loop() {
    let programs = vec![1u64];
    let deps = vec![(1u64, vec![1u64])];
    assert_eq!(topological_order(&programs, &deps), None);
}

#[test]
fn kahn_refuses_input_from_a_missing_program() {
    // Program 9 is gone, but still listed as feeding program 1.
    let programs = vec![1u64, 2];
    let deps = vec![(9u64, vec![1u64])];
    assert_eq!(topological_order(&programs, &deps), None);
}

#[test]
fn kahn_ignores_edges_to_missing_programs() {
    let programs = vec![1u64, 2];
    let deps = vec![(1u64, vec![7u64, 2, 2])];
    assert_eq!(topological_order(&programs, &deps), Some(vec![1, 2]));
}

#[test]
fn kahn_diamond() {
    let programs = vec![4u64, 3, 2, 1];
    let deps = vec![(1u64, vec![2u64, 3]), (2, vec![4]), (3, vec![4])];
    let order = topological_order(&programs, &deps).unwrap();
    assert_eq!(order.len(), 4);
    assert!(position(&order, 1) < position(&order, 2));
    assert!(position(&order, 1) < position(&order, 3));
    assert!(position(&order, 2) < position(&order, 4));
    assert!(position(&order, 3) < position(&order, 4));
}

#[test]
fn program_links() {
    let mut ids = UniqueIdAllocator::new();
    let mut program = Program::<i64>::new(ids.fresh());
    let bus_a: BusHandle<f64> = BusHandle::new(ids.fresh());
    let bus_b: BusHandle<f64> = BusHandle::new(ids.fresh());
    let link = program.link_input_bus(&bus_a);
    assert_eq!(link.bus_id(), bus_a.id());
    assert_eq!(link.link_type(), BusLinkType::Input);
    program.link_input_bus(&bus_a);
    assert_eq!(program.input_bus_ids(), &vec![bus_a.id().get()]);
    assert_eq!(program.link_output_bus(&bus_b).link_type(), BusLinkType::Output);
    assert_eq!(program.link_internal_bus(&bus_b).link_type(), BusLinkType::Internal);
    assert!(program.reads_bus(bus_a.id().get()));
    assert!(!program.reads_bus(bus_b.id().get()));
    assert!(program.writes_bus(bus_b.id().get()));
    assert_eq!(program.output_bus_ids(), &vec![bus_b.id().get()]);
}

#[test]
fn fragments_run_every_block() {
    let mut ids = UniqueIdAllocator::new();
    let mut program = Program::<i64>::new(ids.fresh());
    let chain = program.new_chain();
    assert!(program.add_fragment(chain).is_ok());
    let ctx = synthizer::signals::SignalExecutionContext { time_in_blocks: 0 };
    let mut mix = silent_frames(3i64);
    program.execute_block(&ctx, &mut mix);
    // A fragment whose output goes nowhere leaves the block as it was.
    assert_eq!(mix, silent_frames(3i64));
}

/// Mount a reader before a writer of the same bus, and the writer still runs first.
#[test]
fn writer_runs_before_reader() {
    let mut ids = UniqueIdAllocator::new();
    let bus: BusHandle<f64> = BusHandle::new(ids.fresh());
    let mut reader = Program::<i64>::new(ids.fresh());
    reader.link_input_bus(&bus);
    let mut writer = Program::<i64>::new(ids.fresh());
    writer.link_output_bus(&bus);
    let mut bystander = Program::<i64>::new(ids.fresh());
    let reader_id = reader.id().get();
    let writer_id = writer.id().get();
    let bystander_id = bystander.id().get();
    bystander.link_input_bus(&BusHandle::<f64>::new(ids.fresh()));

    let mut state = AudioThreadState::<i64>::new();
    state.begin_batch();
    state.mount(reader_id, reader);
    state.mount(bystander_id, bystander);
    state.mount(writer_id, writer);
    assert!(!state.is_order_current());
    state.run_block(&mut silent_frames(0i64));
    assert!(state.is_order_current());
    assert_eq!(state.blocks_computed(), 1);
    let order = state.execution_order_ids().clone();
    assert_eq!(order.len(), 3);
    assert!(position(&order, writer_id) < position(&order, reader_id));
    assert_eq!(state.program_id_list(), vec![reader_id, bystander_id, writer_id]);
}

#[test]
fn dropped_programs_are_removed_by_the_next_batch() {
    let mut ids = UniqueIdAllocator::new();
    let mut state = AudioThreadState::<i64>::new();
    state.begin_batch();
    let mut mounted = Vec::new();
    for _ in 0..20 {
        let program = Program::<i64>::new(ids.fresh());
        let id = program.id().get();
        state.mount(id, program);
        mounted.push(id);
    }
    state.run_block(&mut silent_frames(0i64));
    for id in &mounted {
        state.mark_pending_drop(*id);
    }
    assert_eq!(state.dropped_program_ids().as_slice(), &mounted[..16]);
    state.begin_batch();
    let removed = state.remove_dropped_programs();
    assert_eq!(removed.len(), 16);
    assert_eq!(removed.iter().map(|e| e.0).collect::<Vec<_>>(), mounted[..16].to_vec());
    assert_eq!(state.program_id_list(), mounted[16..].to_vec());
    state.begin_batch();
    let removed = state.remove_dropped_programs();
    assert_eq!(removed.len(), 4);
    assert!(state.program_id_list().is_empty());
}

#[test]
fn programs_feeding_each_other_cannot_run() {
    let mut ids = UniqueIdAllocator::new();
    let x: BusHandle<f64> = BusHandle::new(ids.fresh());
    let y: BusHandle<f64> = BusHandle::new(ids.fresh());
    let mut a = Program::<i64>::new(ids.fresh());
    a.link_output_bus(&x);
    a.link_input_bus(&y);
    let mut b = Program::<i64>::new(ids.fresh());
    b.link_output_bus(&y);
    b.link_input_bus(&x);
    let (a_id, b_id) = (a.id().get(), b.id().get());
    let mut state = AudioThreadState::<i64>::new();
    state.begin_batch();
    assert!(state.is_fresh_id(a_id));
    state.mount(a_id, a);
    assert!(!state.is_fresh_id(a_id));
    state.mount(b_id, b);
    assert_eq!(state.edge_count(), Some(2));
    assert!(!state.try_run_block(&mut silent_frames(0i64)));
    assert_eq!(state.blocks_computed(), 0);
    assert!(!state.is_order_current());
}

#[test]
fn dropping_a_writer_leaves_its_reader_waiting() {
    let mut ids = UniqueIdAllocator::new();
    let bus: BusHandle<u8> = BusHandle::new(ids.fresh());
    let mut writer = Program::<i64>::new(ids.fresh());
    writer.link_output_bus(&bus);
    let mut reader = Program::<i64>::new(ids.fresh());
    reader.link_input_bus(&bus);
    let (w, r) = (writer.id().get(), reader.id().get());
    let mut state = AudioThreadState::<i64>::new();
    state.begin_batch();
    state.mount(w, writer);
    state.mount(r, reader);
    assert!(state.try_run_block(&mut silent_frames(0i64)));
    assert_eq!(state.execution_order_ids(), &vec![w, r]);
    state.mark_pending_drop(w);
    state.begin_batch();
    assert_eq!(state.remove_dropped_programs().len(), 1);
    // The table still says the dropped writer feeds the reader, so no order exists.
    assert!(!state.try_run_block(&mut silent_frames(0i64)));
}

#[test]
fn try_run_block_runs_when_possible() {
    let mut ids = UniqueIdAllocator::new();
    let mut state = AudioThreadState::<i64>::new();
    state.begin_batch();
    let p = Program::<i64>::new(ids.fresh());
    let id = p.id().get();
    state.mount(id, p);
    assert_eq!(state.generation_value(), 1);
    assert!(state.try_run_block(&mut silent_frames(0i64)));
    assert!(state.try_run_block(&mut silent_frames(0i64)));
    assert_eq!(state.blocks_computed(), 2);
    assert_eq!(state.execution_order_ids(), &vec![id]);
}

/// A stereo signal counting the frames it has produced.
struct Counter;

impl synthizer::signals::Signal for Counter {
    type Input = ();
    type Output = (i64, i64);
    type State = i64;

    fn tick_spec(_ctx: synthizer::signals::SignalExecutionContext, _input: (), state: i64) -> ((i64, i64), i64) {
        ((state, -state), state + 1)
    }

    fn block_start_spec(_ctx: synthizer::signals::SignalExecutionContext, state: i64) -> i64 {
        state
    }

    fn on_block_start(_ctx: &synthizer::signals::SignalExecutionContext, _state: &mut i64) {}

    fn tick_frame(_ctx: &synthizer::signals::SignalExecutionContext, _input: (), state: &mut i64) -> (i64, i64) {
        let out = (*state, -*state);
        *state += 1;
        out
    }
}

struct CounterConfig;

impl synthizer::signals::IntoSignal for CounterConfig {
    type Signal = Counter;

    fn succeeds(self) -> bool {
        true
    }

    fn failure(self) -> synthizer::error::Error {
        synthizer::error::Error::Validation(synthizer::error::ValidationError::ZeroDuration)
    }

    fn initial_state(self) -> i64 {
        0
    }

    fn into_signal(
        self,
    ) -> Result<synthizer::signals::ReadySignal<Counter, i64>, synthizer::error::Error> {
        Ok(synthizer::signals::ReadySignal { signal: Counter, state: 0 })
    }
}

/// The signal of an audio output carries on from block to block: the second block starts where the first
/// ended.
#[test]
fn audio_output_continues_from_block_to_block() {
    let mut ids = UniqueIdAllocator::new();
    let mut program = Program::<i64>::new(ids.fresh());
    let add = synthizer::signal_maps::FrameFunction::new(|(a, b): ((i64, i64), (i64, i64))| (a.0 + b.0, a.1 + b.1));
    assert!(program.add_audio_output(synthizer::program::AudioOutputSignalConfig::new(CounterConfig, add)).is_ok());
    let mut first = silent_frames(0i64);
    program.execute_block(&synthizer::signals::SignalExecutionContext { time_in_blocks: 0 }, &mut first);
    let mut second = silent_frames(0i64);
    program.execute_block(&synthizer::signals::SignalExecutionContext { time_in_blocks: 1 }, &mut second);
    let b = synthizer::config::BLOCK_SIZE as i64;
    for i in 0..synthizer::config::BLOCK_SIZE {
        assert_eq!(first[i], (i as i64, -(i as i64)));
        assert_eq!(second[i], (b + i as i64, -(b + i as i64)));
    }
}
