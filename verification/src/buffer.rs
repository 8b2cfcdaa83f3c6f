//! Ownership of the fixed-size slots in one registered memory segment.

use vstd::prelude::*;

use crate::error::{invalid, ErrorView, Result};

pub mod batch;
pub mod laws;
pub mod model;
pub mod pool;

pub use model::{LeaseView, PoolView, RegisteredRxChunk, RegisteredRxSpan};
pub use pool::{PreparedTxBatch, RegisteredRxWindowLease, UrmaBufferPool};

verus! {

/// How the registered segment is divided into slots.
#[derive(Clone, Debug, Eq, PartialEq)]
pub struct BufferPoolConfig {
    pub slot_size: usize,
    pub tx_slot_count: usize,
    pub rx_slot_count: usize,
    pub alignment: usize,
    /// Logical TX slots share one immutable physical range. Normal writes are
    /// forbidden once this is enabled.
    pub alias_tx_slots: bool,
}

impl Default for BufferPoolConfig {
    fn default() -> (config: Self)
        ensures
            config == (BufferPoolConfig {
                slot_size: 65536,
                tx_slot_count: 128,
                rx_slot_count: 512,
                alignment: 4096,
                alias_tx_slots: false,
            }),
    {
        BufferPoolConfig {
            slot_size: 64 * 1024,
            tx_slot_count: 128,
            rx_slot_count: 512,
            alignment: 4096,
            alias_tx_slots: false,
        }
    }
}

/// Whether `n` is a power of two.
pub open spec fn power_of_two(n: nat) -> bool
    decreases n,
{
    n == 1 || (n > 1 && n % 2 == 0 && power_of_two(n / 2))
}

/// Whether `n` is a power of two.
pub(crate) fn is_power_of_two(n: usize) -> (is: bool)
    ensures
        is == power_of_two(n as nat),
    decreases n,
{
    if n <= 1 {
        n == 1
    } else {
        n % 2 == 0 && is_power_of_two(n / 2)
    }
}

impl BufferPoolConfig {
    /// How many slots' worth of memory the TX slots take.
    pub open spec fn physical_tx_slots(self) -> nat {
        if self.alias_tx_slots {
            1
        } else {
            self.tx_slot_count as nat
        }
    }

    /// The number of bytes in the segment.
    pub open spec fn total(self) -> nat {
        self.slot_size as nat * (self.physical_tx_slots() + self.rx_slot_count as nat)
    }

    /// The error that the layout is refused with, if it is refused.
    pub open spec fn layout_error(self) -> Option<ErrorView> {
        if self.slot_size == 0 {
            Some(ErrorView::InvalidConfiguration("slot_size must be non-zero"@))
        } else if self.tx_slot_count == 0 || self.rx_slot_count == 0 {
            Some(
                ErrorView::InvalidConfiguration(
                    "tx_slot_count and rx_slot_count must be non-zero"@,
                ),
            )
        } else if self.alignment * 8 < usize::BITS || !power_of_two(self.alignment as nat) {
            Some(
                ErrorView::InvalidConfiguration(
                    "alignment must be a power of two and at least pointer-sized"@,
                ),
            )
        } else if self.physical_tx_slots() + self.rx_slot_count > usize::MAX {
            Some(ErrorView::InvalidConfiguration("slot count overflow"@))
        } else if self.total() > usize::MAX {
            Some(ErrorView::InvalidConfiguration("buffer pool size overflow"@))
        } else {
            None
        }
    }

    /// The number of bytes in the segment.
    pub fn total_len(&self) -> (length: Result<usize>)
        ensures
            match length {
                Ok(length) => self.layout_error() is None && length == self.total(),
                Err(error) => self.layout_error() == Some(error@),
            },
    {
        if self.slot_size == 0 {
            return Err(invalid("slot_size must be non-zero"));
        }
        if self.tx_slot_count == 0 || self.rx_slot_count == 0 {
            return Err(invalid("tx_slot_count and rx_slot_count must be non-zero"));
        }
        if self.alignment < (usize::BITS / 8) as usize || !is_power_of_two(self.alignment) {
            return Err(invalid("alignment must be a power of two and at least pointer-sized"));
        }
        let physical_tx_slots: usize = if self.alias_tx_slots {
            1
        } else {
            self.tx_slot_count
        };
        let slots: usize = match physical_tx_slots.checked_add(self.rx_slot_count) {
            Some(slots) => slots,
            None => {
                return Err(invalid("slot count overflow"));
            },
        };
        match self.slot_size.checked_mul(slots) {
            Some(length) => Ok(length),
            None => Err(invalid("buffer pool size overflow")),
        }
    }
}

/// The direction that a slot serves.
#[derive(Clone, Copy, Debug, Eq, PartialEq, Structural)]
pub enum SlotKind {
    Tx,
    Rx,
}

/// Who may use a slot.
#[derive(Clone, Copy, Debug, Eq, PartialEq, Structural)]
pub enum SlotState {
    Free,
    Allocated,
    Posted,
    Completed,
    Leased,
    PostedRecv,
    RecvCompleted,
    SendPosted,
    SendCompleted,
}

impl SlotState {
    /// The state's name.
    pub open spec fn name(self) -> Seq<char> {
        match self {
            SlotState::Free => "Free"@,
            SlotState::Allocated => "Allocated"@,
            SlotState::Posted => "Posted"@,
            SlotState::Completed => "Completed"@,
            SlotState::Leased => "Leased"@,
            SlotState::PostedRecv => "PostedRecv"@,
            SlotState::RecvCompleted => "RecvCompleted"@,
            SlotState::SendPosted => "SendPosted"@,
            SlotState::SendCompleted => "SendCompleted"@,
        }
    }

    /// The state's name.
    pub fn label(self) -> (label: &'static str)
        ensures
            label@ == self.name(),
    {
        match self {
            SlotState::Free => "Free",
            SlotState::Allocated => "Allocated",
            SlotState::Posted => "Posted",
            SlotState::Completed => "Completed",
            SlotState::Leased => "Leased",
            SlotState::PostedRecv => "PostedRecv",
            SlotState::RecvCompleted => "RecvCompleted",
            SlotState::SendPosted => "SendPosted",
            SlotState::SendCompleted => "SendCompleted",
        }
    }
}

/// How many slots are in each state.
#[derive(Clone, Copy, Debug, Eq, PartialEq, Structural)]
pub struct SlotStateSnapshot {
    pub free: usize,
    pub allocated: usize,
    pub posted_recv: usize,
    pub recv_completed: usize,
    pub send_posted: usize,
    pub send_completed: usize,
    pub other: usize,
}

/// The number of states in `states` for which `class` holds.
pub open spec fn count_states(states: Seq<SlotState>, class: spec_fn(SlotState) -> bool) -> nat
    decreases states.len(),
{
    if states.len() == 0 {
        0
    } else {
        count_states(states.drop_last(), class) + if class(states.last()) {
            1nat
        } else {
            0nat
        }
    }
}

impl SlotStateSnapshot {
    /// Whether the snapshot counts the states in `states`.
    pub open spec fn counts(self, states: Seq<SlotState>) -> bool {
        &&& self.free == count_states(states, |s: SlotState| s == SlotState::Free)
        &&& self.allocated == count_states(states, |s: SlotState| s == SlotState::Allocated)
        &&& self.posted_recv == count_states(states, |s: SlotState| s == SlotState::PostedRecv)
        &&& self.recv_completed == count_states(
            states,
            |s: SlotState| s == SlotState::RecvCompleted,
        )
        &&& self.send_posted == count_states(states, |s: SlotState| s == SlotState::SendPosted)
        &&& self.send_completed == count_states(
            states,
            |s: SlotState| s == SlotState::SendCompleted,
        )
        &&& self.other == count_states(
            states,
            |s: SlotState|
                s == SlotState::Posted || s == SlotState::Completed || s == SlotState::Leased,
        )
    }

    /// The number of slots counted.
    pub open spec fn total(self) -> nat {
        (self.free + self.allocated + self.posted_recv + self.recv_completed + self.send_posted
            + self.send_completed + self.other) as nat
    }

    /// The snapshot after one more slot was seen.
    pub open spec fn observed(self, state: SlotState) -> Self {
        match state {
            SlotState::Free => SlotStateSnapshot { free: (self.free + 1) as usize, ..self },
            SlotState::Allocated => SlotStateSnapshot {
                allocated: (self.allocated + 1) as usize,
                ..self
            },
            SlotState::PostedRecv => SlotStateSnapshot {
                posted_recv: (self.posted_recv + 1) as usize,
                ..self
            },
            SlotState::RecvCompleted => SlotStateSnapshot {
                recv_completed: (self.recv_completed + 1) as usize,
                ..self
            },
            SlotState::SendPosted => SlotStateSnapshot {
                send_posted: (self.send_posted + 1) as usize,
                ..self
            },
            SlotState::SendCompleted => SlotStateSnapshot {
                send_completed: (self.send_completed + 1) as usize,
                ..self
            },
            SlotState::Posted | SlotState::Completed | SlotState::Leased => SlotStateSnapshot {
                other: (self.other + 1) as usize,
                ..self
            },
        }
    }

    /// Counts one more slot.
    pub fn observe(&mut self, state: SlotState)
        requires
            old(self).total() < usize::MAX,
        ensures
            *final(self) == old(self).observed(state),
            final(self).total() == old(self).total() + 1,
    {
        match state {
            SlotState::Free => self.free = self.free + 1,
            SlotState::Allocated => self.allocated = self.allocated + 1,
            SlotState::PostedRecv => self.posted_recv = self.posted_recv + 1,
            SlotState::RecvCompleted => self.recv_completed = self.recv_completed + 1,
            SlotState::SendPosted => self.send_posted = self.send_posted + 1,
            SlotState::SendCompleted => self.send_completed = self.send_completed + 1,
            SlotState::Posted => self.other = self.other + 1,
            SlotState::Completed => self.other = self.other + 1,
            SlotState::Leased => self.other = self.other + 1,
        }
    }
}

impl Default for SlotStateSnapshot {
    fn default() -> (snapshot: Self)
        ensures
            snapshot == (SlotStateSnapshot {
                free: 0,
                allocated: 0,
                posted_recv: 0,
                recv_completed: 0,
                send_posted: 0,
                send_completed: 0,
                other: 0,
            }),
    {
        SlotStateSnapshot {
            free: 0,
            allocated: 0,
            posted_recv: 0,
            recv_completed: 0,
            send_posted: 0,
            send_completed: 0,
            other: 0,
        }
    }
}

/// The position of a slot in its pool.
#[derive(Clone, Copy, Debug, Eq, Hash, PartialEq, Structural)]
pub struct SlotId(usize);

impl SlotId {
    /// The slot's position.
    pub closed spec fn position(self) -> nat {
        self.0 as nat
    }

    /// The slot at a position.
    pub closed spec fn at(position: usize) -> Self {
        SlotId(position)
    }

    /// Slots with one position are one slot.
    pub proof fn lemma_position(self)
        ensures
            self.position() <= usize::MAX,
            self == SlotId::at(self.position() as usize),
            forall|position: usize| #[trigger] SlotId::at(position).position() == position,
    {
    }

    /// The slot's position.
    pub fn index(self) -> (index: usize)
        ensures
            index == self.position(),
            self == SlotId::at(index),
    {
        self.0
    }

    /// The slot at a position.
    pub fn from_index(index: usize) -> (id: Self)
        ensures
            id.position() == index,
            id == SlotId::at(index),
    {
        SlotId(index)
    }
}

} // verus!
