use crate::unique_id::UniqueId;
use std::marker::PhantomData;
use std::sync::Arc;
use vstd::prelude::*;

verus! {

/// A reference to a knob on an algorithm: a value set from outside the audio thread and read by signals.
pub struct Slot<T> {
    slot_id: UniqueId,
    _phantom: PhantomData<T>,
}

impl<T> Slot<T> {
    /// The slot's identifier.
    pub closed spec fn id_view(self) -> UniqueId {
        self.slot_id
    }

    /// A slot with the identifier `slot_id`.
    pub fn new(slot_id: UniqueId) -> (r: Self)
        ensures
            r.id_view() == slot_id,
    {
        Slot { slot_id, _phantom: PhantomData }
    }

    /// The slot's identifier.
    pub fn id(&self) -> (r: UniqueId)
        ensures
            r == self.id_view(),
    {
        self.slot_id
    }
}

/// A value of a slot, together with the identifier of the update that set it.
pub struct SlotValueContainer<T> {
    value: Arc<T>,
    update_id: UniqueId,
}

impl<T> SlotValueContainer<T> {
    /// The value held.
    pub closed spec fn value(self) -> T {
        *self.value
    }

    /// The update that set the value.
    pub closed spec fn update(self) -> UniqueId {
        self.update_id
    }

    /// A container holding `value`, set by the update `update_id`.
    pub fn new(value: T, update_id: UniqueId) -> (r: Self)
        ensures
            r.value() == value,
            r.update() == update_id,
    {
        SlotValueContainer { value: Arc::new(value), update_id }
    }

    /// A new container replacing the value with `newval`, set by the update `update_id`; this container is
    /// left as it is.
    pub fn replace(&self, newval: T, update_id: UniqueId) -> (r: Self)
        ensures
            r.value() == newval,
            r.update() == update_id,
    {
        SlotValueContainer { value: Arc::new(newval), update_id }
    }
}

/// The audio thread's view of a slot: the last value seen, and whether it changed at the start of the
/// current block.
pub struct SlotAudioThreadState<T> {
    slot_id: UniqueId,
    value: Arc<T>,
    last_update_id: UniqueId,
    changed_this_block: bool,
}

/// What a slot's signal outputs: the value and whether it changed at the start of this block.
#[derive(Clone, Copy, Debug)]
pub struct SlotSignalOutput<T> {
    value: T,
    changed_this_block: bool,
}

impl<T> SlotSignalOutput<T> {
    /// The value.
    pub closed spec fn value_view(self) -> T {
        self.value
    }

    /// Whether the value changed at the start of this block.
    pub closed spec fn changed(self) -> bool {
        self.changed_this_block
    }

    /// The value.
    pub fn get_value(&self) -> (r: &T)
        ensures
            *r == self.value_view(),
    {
        &self.value
    }

    /// Did the value change at the beginning of this block?
    pub fn changed_this_block(&self) -> (r: bool)
        ensures
            r == self.changed(),
    {
        self.changed_this_block
    }
}

impl<T> SlotAudioThreadState<T> {
    /// The slot read.
    pub closed spec fn slot(self) -> UniqueId {
        self.slot_id
    }

    /// The value last seen.
    pub closed spec fn value(self) -> T {
        *self.value
    }

    /// The update that set the value last seen.
    pub closed spec fn last_update(self) -> UniqueId {
        self.last_update_id
    }

    /// Whether the value changed at the start of the current block.
    pub closed spec fn changed(self) -> bool {
        self.changed_this_block
    }

    /// At the start of a block, take in the slot's current container: a container from an update not yet
    /// seen replaces the value and marks it changed; otherwise nothing changes but the mark is cleared.
    pub fn observe(&mut self, container: &SlotValueContainer<T>)
        ensures
            final(self).slot() == old(self).slot(),
            if old(self).last_update() != container.update() {
                &&& final(self).value() == container.value()
                &&& final(self).last_update() == container.update()
                &&& final(self).changed()
            } else {
                &&& final(self).value() == old(self).value()
                &&& final(self).last_update() == old(self).last_update()
                &&& !final(self).changed()
            },
    {
        if self.last_update_id == container.update_id {
            self.changed_this_block = false;
            return;
        }
        self.value = container.value.clone();
        self.last_update_id = container.update_id;
        self.changed_this_block = true;
    }
}

impl<T: Copy> SlotAudioThreadState<T> {
    /// The output for a frame: the value last seen and whether it changed this block.
    pub fn output(&self) -> (r: SlotSignalOutput<T>)
        ensures
            r.value_view() == self.value(),
            r.changed() == self.changed(),
    {
        SlotSignalOutput { value: *self.value, changed_this_block: self.changed_this_block }
    }
}

/// Description of a signal reading a slot, with the value to use until the first update is seen.
pub struct SlotSignalConfig<T> {
    slot_id: UniqueId,
    initial_value: T,
}

/// The signal reading a slot.
pub struct SlotSignal<T>(PhantomData<T>);

impl<T> SlotSignalConfig<T> {
    /// Describe reading `slot`, starting from `initial_value`.
    pub fn new(slot: &Slot<T>, initial_value: T) -> (r: Self)
        ensures
            r.slot() == slot.id_view(),
            r.initial() == initial_value,
    {
        SlotSignalConfig { slot_id: slot.slot_id, initial_value }
    }

    /// The slot read.
    pub closed spec fn slot(self) -> UniqueId {
        self.slot_id
    }

    /// The value used until the first update is seen.
    pub closed spec fn initial(self) -> T {
        self.initial_value
    }

    /// The signal and its starting state.  `never_seen` must be an identifier no update carries, so that
    /// the first container observed is taken in.
    pub fn into_state(self, never_seen: UniqueId) -> (r: (SlotSignal<T>, SlotAudioThreadState<T>))
        ensures
            r.1.slot() == self.slot(),
            r.1.value() == self.initial(),
            r.1.last_update() == never_seen,
            !r.1.changed(),
    {
        (
            SlotSignal(PhantomData),
            SlotAudioThreadState {
                slot_id: self.slot_id,
                changed_this_block: false,
                last_update_id: never_seen,
                value: Arc::new(self.initial_value),
            },
        )
    }
}

/// Observing the same container twice reports a change at most the first time, and the value stays the
/// container's.
pub proof fn lemma_observe_twice<T>(
    s0: SlotAudioThreadState<T>,
    s1: SlotAudioThreadState<T>,
    s2: SlotAudioThreadState<T>,
    c: SlotValueContainer<T>,
)
    requires
        s1.last_update() == (if s0.last_update() != c.update() { c.update() } else { s0.last_update() }),
        s1.value() == (if s0.last_update() != c.update() { c.value() } else { s0.value() }),
        s2.last_update() == (if s1.last_update() != c.update() { c.update() } else { s1.last_update() }),
        s2.changed() == (s1.last_update() != c.update()),
        s2.value() == (if s1.last_update() != c.update() { c.value() } else { s1.value() }),
    ensures
        !s2.changed(),
        s2.last_update() == c.update(),
        s0.last_update() != c.update() ==> s2.value() == c.value(),
{
}

} // verus!
