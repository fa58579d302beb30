use synthizer::batch::{Command, SynthesizerState};
use synthizer::program::{BusHandle, Program};
use synthizer::unique_id::UniqueIdAllocator;

type State = SynthesizerState<&'static str, u32, u8, i64>;
type Cmd = Command<&'static str, u32, u8, i64>;

#[test]
fn mount_takes_in_buses_and_wavetables() {
    let mut ids = UniqueIdAllocator::new();
    let mut state = State::new();
    let bus = BusHandle::<f64>::new(ids.fresh());
    let mut program = Program::new(ids.fresh());
    program.link_output_bus(&bus);
    let pid = program.id().get();
    let removed = state.apply_batch(vec![Cmd::Mount {
        id: pid,
        program,
        buses: vec![(bus.id().get(), 7)],
        wavetables: vec![(40, 1), (41, 2)],
    }]);
    assert!(removed.programs.is_empty());
    assert!(state.buses().contains(bus.id().get()));
    assert!(state.wavetables().contains(40) && state.wavetables().contains(41));
    assert_eq!(state.programs().program_id_list(), vec![pid]);
}

#[test]
fn dropped_buses_and_wavetables_are_removed() {
    let mut ids = UniqueIdAllocator::new();
    let mut state = State::new();
    let program = Program::new(ids.fresh());
    let pid = program.id().get();
    state.apply_batch(vec![
        Cmd::Mount { id: pid, program, buses: vec![(1, 10), (2, 20)], wavetables: vec![(3, 30)] },
        Cmd::AllocateSlot { id: 4, value: "gain" },
    ]);
    let removed = state.apply_batch(vec![Cmd::DropBus(1), Cmd::DropWavetable(3), Cmd::DropSlot(4)]);
    assert_eq!(removed.buses.len(), 1);
    assert_eq!(removed.buses[0].id, 1);
    assert_eq!(removed.buses[0].value, 10);
    assert_eq!(removed.wavetables.len(), 1);
    assert_eq!(removed.slots.len(), 1);
    assert!(!state.buses().contains(1));
    assert!(state.buses().contains(2));
    assert!(!state.wavetables().contains(3));
    assert!(!state.slots().contains(4));
    let removed = state.apply_batch(vec![Cmd::DropProgram(pid)]);
    assert_eq!(removed.programs.len(), 1);
    assert!(state.programs().program_id_list().is_empty());
}

#[test]
fn slot_values_change_only_through_mounted_programs() {
    let mut ids = UniqueIdAllocator::new();
    let mut state = State::new();
    let program = Program::new(ids.fresh());
    let pid = program.id().get();
    state.apply_batch(vec![
        Cmd::Mount { id: pid, program, buses: vec![], wavetables: vec![] },
        Cmd::AllocateSlot { id: 9, value: "a" },
        Cmd::ReplaceSlotValue { program: pid + 1000, slot: 9, value: "b" },
    ]);
    let removed = state.apply_batch(vec![Cmd::DropSlot(9)]);
    assert_eq!(removed.slots[0].value, "a");
}
