//! The slot pool over one registered segment.

use std::collections::VecDeque;

use vstd::prelude::*;

use super::model;
use super::model::{LeaseView, PoolView, RegisteredRxChunk, RegisteredRxSpan};
use super::{BufferPoolConfig, SlotId, SlotKind, SlotState, SlotStateSnapshot};
use crate::error::{invalid, protocol, Error, ErrorView, Result};
use crate::text;
use crate::text::{push_decimal, with_number, with_numbers};
use crate::wr::OperationType;

verus! {

/// One slot of the segment.
#[derive(Clone, Debug)]
struct BufferSlot {
    kind: SlotKind,
    offset: usize,
    len: usize,
    state: SlotState,
}

/// A filled TX slot run that is not yet referenced by any work request. The
/// owning connection must either post or explicitly discard it.
#[must_use]
pub struct PreparedTxBatch {
    layouts: Vec<(SlotId, u64, u32)>,
    fill_offset: u64,
    fill_length: u32,
}

impl View for PreparedTxBatch {
    type V = Seq<(SlotId, u64, u32)>;

    /// The slot, offset and length of each message of the batch.
    closed spec fn view(&self) -> Seq<(SlotId, u64, u32)> {
        self.layouts@
    }
}

/// The slots of a batch.
pub open spec fn batch_slots(layouts: Seq<(SlotId, u64, u32)>) -> Seq<SlotId> {
    layouts.map_values(|layout: (SlotId, u64, u32)| layout.0)
}

impl PreparedTxBatch {
    /// Where the batch's bytes start in the segment, and how many there are.
    pub closed spec fn fill_range(self) -> (u64, u32) {
        (self.fill_offset, self.fill_length)
    }

    /// The number of messages in the batch.
    pub fn len(&self) -> (length: usize)
        ensures
            length == self@.len(),
    {
        self.layouts.len()
    }

    /// Where the batch's bytes start in the segment, and how many there are.
    pub fn range(&self) -> (range: (u64, u32))
        ensures
            range == self.fill_range(),
    {
        (self.fill_offset, self.fill_length)
    }

    /// The slot, offset and length of the message at `index`.
    pub fn layout(&self, index: usize) -> (layout: (SlotId, u64, u32))
        requires
            index < self@.len(),
        ensures
            layout == self@[index as int],
    {
        self.layouts[index]
    }
}

/// The slots of one registered segment, and who may use each.
pub struct UrmaBufferPool {
    config: BufferPoolConfig,
    segment_open: bool,
    slots: Vec<BufferSlot>,
    free_tx: Vec<usize>,
    free_rx: VecDeque<usize>,
    accepting: bool,
    active_rx_leases: usize,
    pool_id: u64,
}

impl View for UrmaBufferPool {
    type V = PoolView;

    closed spec fn view(&self) -> PoolView {
        PoolView {
            config: self.config,
            states: self.slots@.map_values(|slot: BufferSlot| slot.state),
            free_tx: self.free_tx@,
            free_rx: self.free_rx@,
            accepting: self.accepting,
            open: self.segment_open,
            leases: self.active_rx_leases as nat,
            pool_id: self.pool_id,
        }
    }
}

impl UrmaBufferPool {
    /// Whether the slots lie where the pool's layout puts them.
    pub closed spec fn laid_out(self) -> bool {
        forall|i: int|
            0 <= i < self.slots@.len() ==> {
                let slot = #[trigger] self.slots@[i];
                &&& slot.kind == self@.kind(i)
                &&& slot.offset == self@.offset(i)
                &&& slot.len == self.config.slot_size
            }
    }

    /// The pool's invariant.
    pub open spec fn wf(self) -> bool {
        self.laid_out() && self@.wf()
    }

    /// A pool with every slot free, over a segment of [`BufferPoolConfig::total_len`] bytes.
    pub fn create(config: BufferPoolConfig, pool_id: u64) -> (pool: Result<Self>)
        ensures
            match pool {
                Ok(pool) => {
                    &&& pool.wf()
                    &&& pool@ == PoolView::fresh(config, pool_id)
                },
                Err(error) => PoolView::create_error(config) == Some(error@),
            },
            pool is Ok <==> PoolView::create_error(config) is None,
    {
        match config.total_len() {
            Ok(_) => {},
            Err(error) => {
                return Err(error);
            },
        }
        let slot_count: usize = match config.tx_slot_count.checked_add(config.rx_slot_count) {
            Some(slot_count) => slot_count,
            None => {
                return Err(invalid("slot count overflow"));
            },
        };
        let physical_tx_slots: usize = if config.alias_tx_slots {
            1
        } else {
            config.tx_slot_count
        };
        let ghost fresh = PoolView::fresh(config, pool_id);
        let mut slots: Vec<BufferSlot> = Vec::new();
        let mut index: usize = 0;
        while index < slot_count
            invariant
                index <= slot_count,
                slot_count == config.tx_slot_count + config.rx_slot_count,
                physical_tx_slots == config.physical_tx_slots(),
                config.layout_error() is None,
                fresh == PoolView::fresh(config, pool_id),
                slots@.len() == index,
                forall|i: int|
                    0 <= i < index ==> {
                        let slot = #[trigger] slots@[i];
                        &&& slot.kind == fresh.kind(i)
                        &&& slot.offset == fresh.offset(i)
                        &&& slot.len == config.slot_size
                        &&& slot.state == SlotState::Free
                    },
            decreases slot_count - index,
        {
            let kind = if index < config.tx_slot_count {
                SlotKind::Tx
            } else {
                SlotKind::Rx
            };
            let physical: usize = if index >= config.tx_slot_count {
                physical_tx_slots + (index - config.tx_slot_count)
            } else if config.alias_tx_slots {
                0
            } else {
                index
            };
            proof {
                let size = config.slot_size as int;
                let all = config.physical_tx_slots() + config.rx_slot_count as int;
                assert(0 <= size * physical <= size * all) by (nonlinear_arith)
                    requires
                        0 <= physical <= all,
                        size >= 0,
                ;
            }
            let offset: usize = config.slot_size * physical;
            slots.push(BufferSlot { kind, offset, len: config.slot_size, state: SlotState::Free });
            index += 1;
        }
        let mut free_tx: Vec<usize> = Vec::new();
        let mut remaining: usize = config.tx_slot_count;
        while remaining > 0
            invariant
                remaining <= config.tx_slot_count,
                free_tx@.len() == config.tx_slot_count - remaining,
                forall|k: int|
                    0 <= k < free_tx@.len() ==> #[trigger] free_tx@[k] == config.tx_slot_count - 1
                        - k,
            decreases remaining,
        {
            remaining -= 1;
            free_tx.push(remaining);
        }
        let mut free_rx: VecDeque<usize> = VecDeque::new();
        let mut next: usize = config.tx_slot_count;
        while next < slot_count
            invariant
                config.tx_slot_count <= next <= slot_count,
                free_rx@.len() == next - config.tx_slot_count,
                forall|k: int|
                    0 <= k < free_rx@.len() ==> #[trigger] free_rx@[k] == config.tx_slot_count + k,
            decreases slot_count - next,
        {
            free_rx.push_back(next);
            next += 1;
        }
        let pool = UrmaBufferPool {
            config,
            segment_open: true,
            slots,
            free_tx,
            free_rx,
            accepting: true,
            active_rx_leases: 0,
            pool_id,
        };
        proof {
            assert(pool@ =~= fresh);
            PoolView::lemma_fresh(config, pool_id);
        }
        Ok(pool)
    }

    /// How the segment is divided.
    pub fn config(&self) -> (config: &BufferPoolConfig)
        ensures
            *config == self@.config,
    {
        &self.config
    }

    /// What tells this pool's leases from another pool's.
    pub fn pool_id(&self) -> (pool_id: u64)
        ensures
            pool_id == self@.pool_id,
    {
        self.pool_id
    }

    /// Whether slots are still given out.
    pub fn is_accepting(&self) -> (accepting: bool)
        ensures
            accepting == self@.accepting,
    {
        self.accepting
    }

    /// Whether the segment is still registered.
    pub fn is_open(&self) -> (open: bool)
        ensures
            open == self@.open,
    {
        self.segment_open
    }

    /// The number of free slots of a direction.
    pub fn free_slots(&self, kind: SlotKind) -> (count: usize)
        ensures
            count == self@.free_count(kind),
    {
        match kind {
            SlotKind::Tx => self.free_tx.len(),
            SlotKind::Rx => self.free_rx.len(),
        }
    }

    /// The slot that the allocation after the next `ahead` ones takes.
    pub fn upcoming(&self, kind: SlotKind, ahead: usize) -> (id: SlotId)
        requires
            ahead < self@.free_count(kind),
        ensures
            id == self@.allocations(kind, (ahead + 1) as nat)[ahead as int],
    {
        let index: usize = match kind {
            SlotKind::Tx => self.free_tx[self.free_tx.len() - 1 - ahead],
            SlotKind::Rx => self.free_rx[ahead],
        };
        let id = SlotId::from_index(index);
        assert(id == self@.allocations(kind, (ahead + 1) as nat)[ahead as int]);
        id
    }

    /// Takes a free slot.
    pub fn allocate(&mut self, kind: SlotKind) -> (allocated: Option<SlotId>)
        requires
            old(self).wf(),
        ensures
            final(self).wf(),
            match allocated {
                Some(id) => {
                    &&& old(self)@.accepting
                    &&& old(self)@.next_free(kind) == Some(id.position() as usize)
                    &&& final(self)@ == old(self)@.after_allocate(kind)
                },
                None => {
                    &&& !old(self)@.accepting || old(self)@.next_free(kind) is None
                    &&& final(self)@ == old(self)@
                },
            },
    {
        if !self.accepting {
            return None;
        }
        let ghost before = self@;
        proof {
            if before.next_free(kind) is Some {
                before.lemma_allocate(kind);
            }
        }
        let index: usize = match kind {
            SlotKind::Tx => match self.free_tx.pop() {
                Some(index) => index,
                None => {
                    return None;
                },
            },
            SlotKind::Rx => match self.free_rx.pop_front() {
                Some(index) => index,
                None => {
                    return None;
                },
            },
        };
        self.set_state(index, SlotState::Allocated);
        assert(self@ =~= before.after_allocate(kind));
        Some(SlotId::from_index(index))
    }

    /// Replaces the state of the slot at `index`.
    fn set_state(&mut self, index: usize, state: SlotState)
        requires
            index < old(self)@.states.len(),
            old(self).laid_out(),
        ensures
            final(self).laid_out(),
            final(self)@ == (PoolView {
                states: old(self)@.states.update(index as int, state),
                ..old(self)@
            }),
    {
        let ghost before = *self;
        let slot = BufferSlot {
            kind: self.slots[index].kind,
            offset: self.slots[index].offset,
            len: self.slots[index].len,
            state,
        };
        self.slots.set(index, slot);
        assert(self@ =~= (PoolView {
            states: before@.states.update(index as int, state),
            ..before@
        }));
        assert forall|i: int| 0 <= i < self.slots@.len() implies {
            let slot = #[trigger] self.slots@[i];
            &&& slot.kind == self@.kind(i)
            &&& slot.offset == self@.offset(i)
            &&& slot.len == self.config.slot_size
        } by {
            let earlier = before.slots@[i];
            assert(earlier.kind == before@.kind(i));
        }
    }

    /// Gives a slot back.
    pub fn release(&mut self, id: SlotId) -> (released: Result<()>)
        requires
            old(self).wf(),
        ensures
            final(self).wf(),
            match released {
                Ok(()) => {
                    &&& old(self)@.release_error(id) is None
                    &&& final(self)@ == old(self)@.after_release(id)
                },
                Err(error) => {
                    &&& old(self)@.release_error(id) == Some(error@)
                    &&& final(self)@ == old(self)@
                },
            },
    {
        let ghost before = self@;
        let index: usize = id.index();
        if index >= self.slots.len() {
            return Err(invalid("slot id is outside this buffer pool"));
        }
        let state = self.slots[index].state;
        if !(state == SlotState::Allocated || state == SlotState::RecvCompleted || state
            == SlotState::SendCompleted) {
            return Err(invalid("slot cannot be released while a WR may still reference it"));
        }
        proof {
            before.lemma_release(id);
        }
        let kind = self.slots[index].kind;
        self.set_state(index, SlotState::Free);
        match kind {
            SlotKind::Tx => self.free_tx.push(index),
            SlotKind::Rx => self.free_rx.push_back(index),
        }
        assert(self@ =~= before.after_release(id));
        Ok(())
    }

    /// The state of a slot.
    pub fn slot_state(&self, id: SlotId) -> (state: Option<SlotState>)
        ensures
            state == if self@.has(id) {
                Some(self@.state(id))
            } else {
                None
            },
    {
        if id.index() < self.slots.len() {
            Some(self.slots[id.index()].state)
        } else {
            None
        }
    }

    /// How many slots of a direction are in each state.
    pub fn slot_state_snapshot(&self, kind: SlotKind) -> (snapshot: SlotStateSnapshot)
        requires
            self.wf(),
        ensures
            snapshot.counts(
                match kind {
                    SlotKind::Tx => self@.states.take(self@.tx()),
                    SlotKind::Rx => self@.states.skip(self@.tx()),
                },
            ),
    {
        let (low, high): (usize, usize) = match kind {
            SlotKind::Tx => (0, self.config.tx_slot_count),
            SlotKind::Rx => (self.config.tx_slot_count, self.slots.len()),
        };
        let ghost states = self@.states;
        let mut snapshot = SlotStateSnapshot::default();
        let mut index: usize = low;
        while index < high
            invariant
                low <= index <= high <= self.slots@.len(),
                states == self@.states,
                snapshot.total() == index - low,
                snapshot.counts(states.subrange(low as int, index as int)),
            decreases high - index,
        {
            proof {
                let longer = states.subrange(low as int, index + 1);
                assert(longer.drop_last() =~= states.subrange(low as int, index as int));
                assert(longer.last() == states[index as int]);
            }
            snapshot.observe(self.slots[index].state);
            index += 1;
        }
        proof {
            match kind {
                SlotKind::Tx => {
                    assert(states.subrange(low as int, high as int) =~= states.take(self@.tx()));
                },
                SlotKind::Rx => {
                    assert(states.subrange(low as int, high as int) =~= states.skip(self@.tx()));
                },
            }
        }
        snapshot
    }

    /// Where a slot starts in the segment, and its size.
    pub fn slot_layout(&self, id: SlotId) -> (layout: Option<(usize, usize)>)
        requires
            self.wf(),
        ensures
            match layout {
                Some((offset, length)) => {
                    &&& self@.has(id)
                    &&& offset == self@.offset(id.position() as int)
                    &&& length == self@.config.slot_size
                },
                None => !self@.has(id),
            },
    {
        if id.index() < self.slots.len() {
            let slot = &self.slots[id.index()];
            Some((slot.offset, slot.len))
        } else {
            None
        }
    }

    fn slot_fields(&self, id: SlotId) -> (fields: Result<(usize, usize, SlotKind, SlotState)>)
        requires
            self.wf(),
        ensures
            match fields {
                Ok((offset, capacity, kind, state)) => {
                    &&& self@.has(id)
                    &&& offset == self@.offset(id.position() as int)
                    &&& capacity == self@.config.slot_size
                    &&& kind == self@.kind(id.position() as int)
                    &&& state == self@.state(id)
                },
                Err(error) => !self@.has(id) && error@ == model::slot_outside(),
            },
    {
        if id.index() < self.slots.len() {
            let slot = &self.slots[id.index()];
            Ok((slot.offset, slot.len, slot.kind, slot.state))
        } else {
            Err(invalid("slot id is outside buffer pool"))
        }
    }

    /// Whether a TX slot is in use.
    fn tx_busy(&self) -> (busy: bool)
        requires
            self.wf(),
        ensures
            busy == self@.tx_busy(),
    {
        let mut index: usize = 0;
        while index < self.config.tx_slot_count
            invariant
                self.wf(),
                index <= self.config.tx_slot_count <= self.slots@.len(),
                self@.tx() == self.config.tx_slot_count,
                forall|i: int| 0 <= i < index ==> #[trigger] self@.states[i] == SlotState::Free,
            decreases self.config.tx_slot_count - index,
        {
            if self.slots[index].state != SlotState::Free {
                assert(self@.states[index as int] != SlotState::Free);
                return true;
            }
            index += 1;
        }
        false
    }

    /// Where in the segment `data` is to be written for a send from an allocated TX slot. An aliased
    /// pool refuses: its shared range is filled by [`UrmaBufferPool::prepare_aliased_tx`] alone.
    pub fn write_tx(&self, id: SlotId, data: &[u8]) -> (layout: Result<(u64, u32)>)
        requires
            self.wf(),
        ensures
            match layout {
                Ok((offset, length)) => {
                    &&& self@.write_error(id, data@.len()) is None
                    &&& offset == self@.offset(id.position() as int)
                    &&& length == data@.len()
                },
                Err(error) => self@.write_error(id, data@.len()) == Some(error@),
            },
    {
        if self.config.alias_tx_slots {
            return Err(
                protocol("aliased TX memory cannot be rewritten while another TX WR is outstanding"),
            );
        }
        let (offset, capacity, kind, state): (usize, usize, SlotKind, SlotState) =
            match self.slot_fields(id) {
            Ok(fields) => fields,
            Err(error) => {
                return Err(error);
            },
        };
        if kind != SlotKind::Tx || state != SlotState::Allocated {
            return Err(invalid("TX write requires an allocated TX slot"));
        }
        if data.len() == 0 || data.len() > capacity {
            return Err(
                Error::InvalidConfiguration(
                    with_numbers(
                        "TX message length ",
                        data.len() as u64,
                        " is outside 1..=",
                        capacity as u64,
                        "",
                    ),
                ),
            );
        }
        if !self.segment_open {
            return Err(invalid("registered Segment is closed"));
        }
        if data.len() as u64 > 0xffff_ffff {
            return Err(invalid("TX length exceeds u32"));
        }
        Ok((offset as u64, data.len() as u32))
    }

    /// Takes the leftmost run of free TX slots that holds one message per length. Every message
    /// but the last must fill its slot, so that the batch's bytes lie packed in the segment; the
    /// caller fills them in [`PreparedTxBatch::range`] or discards the batch.
    pub fn prepare_tx_batch(&mut self, lengths: &[usize]) -> (prepared: Result<PreparedTxBatch>)
        requires
            old(self).wf(),
        ensures
            final(self).wf(),
            match prepared {
                Ok(batch) => {
                    &&& old(self)@.batch_request_error(lengths@) is None
                    &&& exists|start: int|
                        {
                            &&& #[trigger] old(self)@.leftmost_run(start, lengths@.len() as int)
                            &&& batch@ == old(self)@.batch_layouts(start, lengths@)
                            &&& batch.fill_range() == (
                                old(self)@.offset(start) as u64,
                                old(self)@.batch_bytes(lengths@) as u32,
                            )
                            &&& final(self)@ == old(self)@.after_batch(
                                start,
                                lengths@.len() as int,
                            )
                        }
                },
                Err(error) => {
                    &&& final(self)@ == old(self)@
                    &&& match old(self)@.batch_request_error(lengths@) {
                        Some(expected) => error@ == expected,
                        None => {
                            &&& error@ == ErrorView::InvalidConfiguration(
                                "no contiguous free TX batch"@,
                            )
                            &&& forall|start: int|
                                !#[trigger] old(self)@.free_run(start, lengths@.len() as int)
                        },
                    }
                },
            },
    {
        let ghost before = self@;
        if self.config.alias_tx_slots || lengths.len() == 0 {
            return Err(invalid("direct TX batch requires non-empty, non-aliased TX slots"));
        }
        let count: usize = lengths.len();
        if count > self.config.tx_slot_count {
            return Err(invalid("direct TX batch exceeds TX slot count"));
        }
        let mut index: usize = 0;
        while index < count
            invariant
                self.wf(),
                before == self@,
                self@ == old(self)@,
                !self@.config.alias_tx_slots,
                count == lengths@.len(),
                1 <= count <= self@.tx(),
                index <= count,
                self@.batch_lengths_error(lengths@, index as nat) is None,
                forall|i: int| 0 <= i < index ==> 1 <= #[trigger] lengths@[i] <= self.config.slot_size,
            decreases count - index,
        {
            let length: usize = lengths[index];
            if length == 0 || length > self.config.slot_size {
                let mut detail = with_numbers(
                    "direct TX batch length ",
                    length as u64,
                    " is outside 1..=",
                    self.config.slot_size as u64,
                    " at index ",
                );
                push_decimal(&mut detail, index as u64);
                proof {
                    before.lemma_batch_lengths_error(lengths@, (index + 1) as nat, count as nat);
                }
                return Err(Error::InvalidConfiguration(detail));
            }
            if index + 1 != count && length != self.config.slot_size {
                proof {
                    before.lemma_batch_lengths_error(lengths@, (index + 1) as nat, count as nat);
                }
                return Err(invalid("only the final direct TX batch slot may be short"));
            }
            index += 1;
        }
        if !self.segment_open {
            return Err(invalid("registered Segment is closed"));
        }
        proof {
            before.slots_lie_apart(count - 1, before.tx());
            let size = before.config.slot_size as int;
            let last = lengths@.last() as int;
            let slots = before.config.physical_tx_slots() + before.config.rx_slot_count as int;
            assert(lengths@.last() == lengths@[count - 1]);
            assert(0 <= size * (count - 1) && size * (count - 1) + last <= size * slots)
                by (nonlinear_arith)
                requires
                    0 <= last <= size,
                    1 <= count < slots,
            ;
        }
        let fill_length: usize = self.config.slot_size * (count - 1) + lengths[count - 1];
        if fill_length as u64 > 0xffff_ffff {
            return Err(invalid("TX batch length exceeds u32"));
        }
        let start: usize = match self.find_free_run(count) {
            Some(start) => start,
            None => {
                return Err(invalid("no contiguous free TX batch"));
            },
        };
        let mut layouts: Vec<(SlotId, u64, u32)> = Vec::new();
        let mut relative: usize = 0;
        while relative < count
            invariant
                self.wf(),
                before == self@,
                count == lengths@.len(),
                relative <= count,
                start + count <= self@.tx() <= self.slots@.len(),
                fill_length <= u32::MAX,
                fill_length == self@.config.slot_size * (count - 1) + lengths@[count - 1],
                forall|i: int| 0 <= i < count ==> 1 <= #[trigger] lengths@[i] <= self.config.slot_size,
                layouts@.len() == relative,
                forall|i: int|
                    0 <= i < relative ==> #[trigger] layouts@[i] == before.batch_layouts(
                        start as int,
                        lengths@,
                    )[i],
            decreases count - relative,
        {
            let id: usize = start + relative;
            let length: usize = lengths[relative];
            proof {
                let size = self@.config.slot_size as int;
                assert(size <= size * (count - 1) || count == 1) by (nonlinear_arith)
                    requires
                        count >= 1,
                        size >= 0,
                ;
            }
            layouts.push(
                (SlotId::from_index(id), self.slots[id].offset as u64, length as u32),
            );
            relative += 1;
        }
        proof {
            before.lemma_batch(start as int, count as int);
        }
        let mut kept: Vec<usize> = Vec::new();
        let mut position: usize = 0;
        while position < self.free_tx.len()
            invariant
                self@ == before,
                start + count <= usize::MAX,
                position <= self.free_tx@.len(),
                kept@ == model::without_range(
                    self.free_tx@.take(position as int),
                    start as int,
                    start + count,
                ),
            decreases self.free_tx@.len() - position,
        {
            let candidate: usize = self.free_tx[position];
            proof {
                let longer = self.free_tx@.take(position + 1);
                assert(longer.drop_last() =~= self.free_tx@.take(position as int));
                assert(longer.last() == candidate);
            }
            if !(start <= candidate && candidate < start + count) {
                kept.push(candidate);
            }
            position += 1;
        }
        assert(self.free_tx@.take(self.free_tx@.len() as int) =~= self.free_tx@);
        self.free_tx = kept;
        let ghost listed = self@;
        let mut marked: usize = 0;
        while marked < count
            invariant
                self.laid_out(),
                marked <= count,
                start + count <= self@.states.len() <= usize::MAX,
                self@ == (PoolView {
                    states: model::filled(
                        listed.states,
                        start as int,
                        start + marked,
                        SlotState::Allocated,
                    ),
                    ..listed
                }),
            decreases count - marked,
        {
            let ghost earlier = self@;
            self.set_state(start + marked, SlotState::Allocated);
            marked += 1;
            assert(self@.states =~= model::filled(
                listed.states,
                start as int,
                start + marked,
                SlotState::Allocated,
            ));
        }
        assert(self@ =~= before.after_batch(start as int, count as int));
        assert(layouts@ =~= before.batch_layouts(start as int, lengths@));
        let fill_offset: u64 = self.slots[start].offset as u64;
        assert(self.slots@[start as int].offset == before.offset(start as int));
        let batch = PreparedTxBatch { layouts, fill_offset, fill_length: fill_length as u32 };
        assert(before.leftmost_run(start as int, lengths@.len() as int));
        Ok(batch)
    }

    /// The leftmost run of `count` free TX slots.
    fn find_free_run(&self, count: usize) -> (start: Option<usize>)
        requires
            self.wf(),
            1 <= count <= self@.tx(),
        ensures
            match start {
                Some(start) => self@.leftmost_run(start as int, count as int),
                None => forall|start: int| !#[trigger] self@.free_run(start, count as int),
            },
    {
        let mut start: usize = 0;
        while start <= self.config.tx_slot_count - count
            invariant
                self.wf(),
                1 <= count <= self@.tx(),
                self@.tx() == self.config.tx_slot_count,
                start <= self.config.tx_slot_count - count + 1,
                forall|earlier: int|
                    0 <= earlier < start ==> !#[trigger] self@.free_run(earlier, count as int),
            decreases self.config.tx_slot_count - count + 1 - start,
        {
            let mut run: usize = 0;
            while run < count && self.slots[start + run].state == SlotState::Free
                invariant
                    self.wf(),
                    1 <= count <= self@.tx(),
                    self@.tx() == self.config.tx_slot_count,
                    start + count <= self@.tx() <= self.slots@.len(),
                    run <= count,
                    forall|i: int|
                        start <= i < start + run ==> #[trigger] self@.states[i] == SlotState::Free,
                decreases count - run,
            {
                assert(self@.states[start + run] == self.slots@[start + run].state);
                run += 1;
            }
            if run == count {
                return Some(start);
            }
            assert(self@.states[start + run] != SlotState::Free);
            start += 1;
        }
        None
    }

    /// Gives back the slots of a batch that was not posted.
    pub fn discard_tx_batch(&mut self, batch: PreparedTxBatch) -> (discarded: Result<()>)
        requires
            old(self).wf(),
        ensures
            final(self).wf(),
            final(self)@ == old(self)@.after_releases(batch_slots(batch@)),
            match discarded {
                Ok(()) => old(self)@.releases_error(batch_slots(batch@)) is None,
                Err(error) => old(self)@.releases_error(batch_slots(batch@)) == Some(error@),
            },
    {
        let ghost ids = batch_slots(batch@);
        let ghost before = self@;
        let mut index: usize = 0;
        while index < batch.layouts.len()
            invariant
                self.wf(),
                ids == batch_slots(batch@),
                before == old(self)@,
                index <= batch.layouts@.len(),
                self@ == before.after_releases(ids.take(index as int)),
                before.releases_error(ids.take(index as int)) is None,
            decreases batch.layouts@.len() - index,
        {
            let (slot, _, _): (SlotId, u64, u32) = batch.layouts[index];
            proof {
                let longer = ids.take(index + 1);
                assert(longer.drop_last() =~= ids.take(index as int));
                assert(longer.last() == slot);
            }
            match self.release(slot) {
                Ok(()) => {},
                Err(error) => {
                    proof {
                        before.lemma_releases_stop(ids, index + 1);
                    }
                    return Err(error);
                },
            }
            index += 1;
        }
        assert(ids.take(ids.len() as int) =~= ids);
        Ok(())
    }

    /// Whether `data` may be written at the start of the segment, which every TX slot of an aliased
    /// pool shares.
    pub fn prepare_aliased_tx(&self, data: &[u8]) -> (allowed: Result<()>)
        requires
            self.wf(),
        ensures
            match allowed {
                Ok(()) => self@.aliased_write_error(data@.len()) is None,
                Err(error) => self@.aliased_write_error(data@.len()) == Some(error@),
            },
    {
        if !self.config.alias_tx_slots || data.len() == 0 || data.len() > self.config.slot_size {
            return Err(
                invalid("aliased TX preparation requires a non-empty payload within slot_size"),
            );
        }
        if self.tx_busy() {
            return Err(
                protocol("aliased TX payload can only be prepared with no outstanding TX WR"),
            );
        }
        if !self.segment_open {
            return Err(invalid("registered Segment is closed"));
        }
        Ok(())
    }

    /// Where the shared TX range lies for a send of `length` bytes from an allocated slot.
    pub fn aliased_tx_layout(&self, id: SlotId, length: usize) -> (layout: Result<(u64, u32)>)
        requires
            self.wf(),
        ensures
            match layout {
                Ok((offset, sent)) => {
                    &&& self@.aliased_layout_error(id, length as nat) is None
                    &&& offset == self@.offset(id.position() as int)
                    &&& sent == length
                },
                Err(error) => self@.aliased_layout_error(id, length as nat) == Some(error@),
            },
    {
        let (offset, capacity, kind, state): (usize, usize, SlotKind, SlotState) =
            match self.slot_fields(id) {
            Ok(fields) => fields,
            Err(error) => {
                return Err(error);
            },
        };
        if !self.config.alias_tx_slots || kind != SlotKind::Tx || state != SlotState::Allocated {
            return Err(invalid("prepared TX requires an allocated aliased TX slot"));
        }
        if length == 0 || length > capacity {
            return Err(invalid("prepared TX length is outside the slot capacity"));
        }
        if length as u64 > 0xffff_ffff {
            return Err(invalid("TX length exceeds u32"));
        }
        Ok((offset as u64, length as u32))
    }

    /// Where a receive on an allocated RX slot puts its bytes, and how many it takes.
    pub fn recv_post_layout(&self, id: SlotId) -> (layout: Result<(u64, u32)>)
        requires
            self.wf(),
        ensures
            match layout {
                Ok((offset, capacity)) => {
                    &&& self@.recv_layout_error(id) is None
                    &&& offset == self@.offset(id.position() as int)
                    &&& capacity == self@.config.slot_size
                },
                Err(error) => self@.recv_layout_error(id) == Some(error@),
            },
    {
        let (offset, capacity, kind, state): (usize, usize, SlotKind, SlotState) =
            match self.slot_fields(id) {
            Ok(fields) => fields,
            Err(error) => {
                return Err(error);
            },
        };
        if kind != SlotKind::Rx || state != SlotState::Allocated {
            return Err(invalid("RECV post requires an allocated RX slot"));
        }
        if capacity as u64 > 0xffff_ffff {
            return Err(invalid("slot size exceeds u32"));
        }
        Ok((offset as u64, capacity as u32))
    }

    /// Moves a slot from one state to another; neither is `Free`.
    fn transition(&mut self, id: SlotId, from: SlotState, to: SlotState) -> (moved: Result<()>)
        requires
            old(self).wf(),
            from != SlotState::Free,
            to != SlotState::Free,
        ensures
            final(self).wf(),
            match moved {
                Ok(()) => {
                    &&& old(self)@.transition_error(id, from) is None
                    &&& final(self)@ == old(self)@.with_state(id, to)
                },
                Err(error) => {
                    &&& old(self)@.transition_error(id, from) == Some(error@)
                    &&& final(self)@ == old(self)@
                },
            },
    {
        if id.index() >= self.slots.len() {
            return Err(protocol("completion slot is outside buffer pool"));
        }
        let state = self.slots[id.index()].state;
        if state != from {
            let mut detail = with_number("slot ", id.index() as u64, " state ");
            detail.append(state.label());
            detail.append(", expected ");
            detail.append(from.label());
            return Err(Error::Protocol(detail));
        }
        proof {
            self@.lemma_with_state(id, to);
        }
        self.set_state(id.index(), to);
        Ok(())
    }

    /// Marks an allocated slot as referenced by a work request.
    pub fn mark_posted(&mut self, id: SlotId, kind: SlotKind) -> (marked: Result<()>)
        requires
            old(self).wf(),
        ensures
            final(self).wf(),
            match marked {
                Ok(()) => {
                    &&& old(self)@.mark_posted_error(id, kind) is None
                    &&& final(self)@ == old(self)@.with_state(id, model::posted_state(kind))
                },
                Err(error) => {
                    &&& old(self)@.mark_posted_error(id, kind) == Some(error@)
                    &&& final(self)@ == old(self)@
                },
            },
    {
        if id.index() >= self.slots.len() {
            return Err(protocol("completion slot is outside buffer pool"));
        }
        if self.slots[id.index()].kind != kind {
            return Err(protocol("WR operation does not match slot kind"));
        }
        let to = match kind {
            SlotKind::Tx => SlotState::SendPosted,
            SlotKind::Rx => SlotState::PostedRecv,
        };
        self.transition(id, SlotState::Allocated, to)
    }

    /// Undoes [`Self::mark_posted`] for a work request that was not accepted.
    pub fn rollback_post(&mut self, id: SlotId, kind: SlotKind) -> (undone: Result<()>)
        requires
            old(self).wf(),
        ensures
            final(self).wf(),
            match undone {
                Ok(()) => {
                    &&& old(self)@.transition_error(id, model::posted_state(kind)) is None
                    &&& final(self)@ == old(self)@.with_state(id, SlotState::Allocated)
                },
                Err(error) => {
                    &&& old(self)@.transition_error(id, model::posted_state(kind)) == Some(error@)
                    &&& final(self)@ == old(self)@
                },
            },
    {
        let from = match kind {
            SlotKind::Tx => SlotState::SendPosted,
            SlotKind::Rx => SlotState::PostedRecv,
        };
        self.transition(id, from, SlotState::Allocated)
    }

    /// Marks a posted send as completed.
    pub fn complete_send(&mut self, id: SlotId) -> (completed: Result<()>)
        requires
            old(self).wf(),
        ensures
            final(self).wf(),
            match completed {
                Ok(()) => {
                    &&& old(self)@.transition_error(id, SlotState::SendPosted) is None
                    &&& final(self)@ == old(self)@.with_state(id, SlotState::SendCompleted)
                },
                Err(error) => {
                    &&& old(self)@.transition_error(id, SlotState::SendPosted) == Some(error@)
                    &&& final(self)@ == old(self)@
                },
            },
    {
        self.transition(id, SlotState::SendPosted, SlotState::SendCompleted)
    }

    /// Marks a posted work request that failed as completed.
    pub fn complete_error(&mut self, id: SlotId, operation: OperationType) -> (completed: Result<()>)
        requires
            old(self).wf(),
        ensures
            final(self).wf(),
            match completed {
                Ok(()) => {
                    &&& old(self)@.transition_error(id, failed_from(operation)) is None
                    &&& final(self)@ == old(self)@.with_state(id, failed_to(operation))
                },
                Err(error) => {
                    &&& old(self)@.transition_error(id, failed_from(operation)) == Some(error@)
                    &&& final(self)@ == old(self)@
                },
            },
    {
        match operation {
            OperationType::Send => {
                self.transition(id, SlotState::SendPosted, SlotState::SendCompleted)
            },
            OperationType::Recv => {
                self.transition(id, SlotState::PostedRecv, SlotState::RecvCompleted)
            },
        }
    }

    fn check_recv(&self, id: SlotId, length: u32) -> (checked: Result<usize>)
        requires
            self.wf(),
        ensures
            match checked {
                Ok(offset) => {
                    &&& self@.recv_error(id, length as nat) is None
                    &&& offset == self@.offset(id.position() as int)
                },
                Err(error) => self@.recv_error(id, length as nat) == Some(error@),
            },
    {
        let (offset, capacity, kind, state): (usize, usize, SlotKind, SlotState) =
            match self.slot_fields(id) {
            Ok(fields) => fields,
            Err(error) => {
                return Err(error);
            },
        };
        if kind != SlotKind::Rx || state != SlotState::PostedRecv {
            return Err(protocol("RECV CQE does not match a posted RX slot"));
        }
        if length == 0 || length as usize > capacity {
            return Err(
                Error::Protocol(
                    with_numbers(
                        "RECV completion length ",
                        length as u64,
                        " is outside 1..=",
                        capacity as u64,
                        "",
                    ),
                ),
            );
        }
        Ok(offset)
    }

    /// Where the bytes of a received message lie.
    pub fn recv_completion_layout(&self, id: SlotId, length: u32) -> (layout: Result<(u64, u32)>)
        requires
            self.wf(),
        ensures
            match layout {
                Ok((offset, received)) => {
                    &&& self@.recv_error(id, length as nat) is None
                    &&& self@.open
                    &&& offset == self@.offset(id.position() as int)
                    &&& received == length
                },
                Err(error) => match self@.recv_error(id, length as nat) {
                    Some(expected) => error@ == expected,
                    None => !self@.open && error@ == model::segment_closed(),
                },
            },
    {
        match self.check_recv(id, length) {
            Ok(offset) => {
                if !self.segment_open {
                    return Err(invalid("registered Segment is closed"));
                }
                Ok((offset as u64, length))
            },
            Err(error) => Err(error),
        }
    }

    /// Completes a receive with what reading [`Self::recv_completion_layout`] gave. Where the read
    /// failed, the slot stays posted.
    pub fn complete_recv(&mut self, id: SlotId, length: u32, read: Result<Vec<u8>>) -> (completed:
        Result<Vec<u8>>)
        requires
            old(self).wf(),
        ensures
            final(self).wf(),
            match completed {
                Ok(bytes) => {
                    &&& old(self)@.recv_error(id, length as nat) is None
                    &&& old(self)@.open
                    &&& read == Ok::<Vec<u8>, Error>(bytes)
                    &&& final(self)@ == old(self)@.with_state(id, SlotState::RecvCompleted)
                },
                Err(error) => {
                    &&& final(self)@ == old(self)@
                    &&& match old(self)@.recv_error(id, length as nat) {
                        Some(expected) => error@ == expected,
                        None => if !old(self)@.open {
                            error@ == model::segment_closed()
                        } else {
                            read == Err::<Vec<u8>, Error>(error)
                        },
                    }
                },
            },
    {
        match self.recv_completion_layout(id, length) {
            Ok(_) => {},
            Err(error) => {
                return Err(error);
            },
        }
        match read {
            Ok(bytes) => match self.transition(
                id,
                SlotState::PostedRecv,
                SlotState::RecvCompleted,
            ) {
                Ok(()) => Ok(bytes),
                Err(error) => Err(error),
            },
            Err(error) => Err(error),
        }
    }

    /// Completes a receive whose bytes a consumer borrowed in place. Where the borrow failed, the
    /// slot stays posted; what the consumer said is handed on once the slot is completed.
    pub fn complete_recv_with<R>(&mut self, id: SlotId, length: u32, borrowed: Result<Result<R>>) -> (completed:
        Result<R>)
        requires
            old(self).wf(),
        ensures
            final(self).wf(),
            if old(self)@.recv_error(id, length as nat) is None && old(self)@.open && borrowed is Ok {
                &&& completed == borrowed->Ok_0
                &&& final(self)@ == old(self)@.with_state(id, SlotState::RecvCompleted)
            } else {
                &&& final(self)@ == old(self)@
                &&& completed matches Err(error)
                &&& match old(self)@.recv_error(id, length as nat) {
                    Some(expected) => error@ == expected,
                    None => if !old(self)@.open {
                        error@ == model::segment_closed()
                    } else {
                        borrowed == Err::<Result<R>, Error>(error)
                    },
                }
            },
    {
        match self.recv_completion_layout(id, length) {
            Ok(_) => {},
            Err(error) => {
                return Err(error);
            },
        }
        match borrowed {
            Ok(consumed) => match self.transition(
                id,
                SlotState::PostedRecv,
                SlotState::RecvCompleted,
            ) {
                Ok(()) => consumed,
                Err(error) => Err(error),
            },
            Err(error) => Err(error),
        }
    }

    /// Completes a receive whose bytes stay in the slot until a window is leased.
    pub fn complete_recv_leased(&mut self, id: SlotId, length: u32) -> (completed: Result<()>)
        requires
            old(self).wf(),
        ensures
            final(self).wf(),
            match completed {
                Ok(()) => {
                    &&& old(self)@.recv_error(id, length as nat) is None
                    &&& final(self)@ == old(self)@.with_state(id, SlotState::RecvCompleted)
                },
                Err(error) => {
                    &&& old(self)@.recv_error(id, length as nat) == Some(error@)
                    &&& final(self)@ == old(self)@
                },
            },
    {
        match self.check_recv(id, length) {
            Ok(_) => self.transition(id, SlotState::PostedRecv, SlotState::RecvCompleted),
            Err(error) => Err(error),
        }
    }

    /// Stops giving out slots.
    pub fn stop(&mut self)
        requires
            old(self).wf(),
        ensures
            final(self).wf(),
            final(self)@ == (PoolView { accepting: false, ..old(self)@ }),
    {
        self.accepting = false;
    }

    /// Gives the segment up, once no window is leased out. Says whether it is to be unregistered.
    pub fn close(&mut self) -> (closed: Result<bool>)
        requires
            old(self).wf(),
        ensures
            final(self).wf(),
            match closed {
                Ok(unregister) => {
                    &&& old(self)@.leases == 0
                    &&& unregister == old(self)@.open
                    &&& final(self)@ == (PoolView { accepting: false, open: false, ..old(self)@ })
                },
                Err(error) => {
                    &&& old(self)@.leases > 0
                    &&& error@ == ErrorView::InvalidConfiguration(
                        "cannot close registered Segment with "@ + text::decimal(
                            old(self)@.leases,
                        ) + " active RX leases"@,
                    )
                    &&& final(self)@ == (PoolView { accepting: false, ..old(self)@ })
                },
            },
    {
        self.stop();
        if self.active_rx_leases != 0 {
            return Err(
                Error::InvalidConfiguration(
                    with_number(
                        "cannot close registered Segment with ",
                        self.active_rx_leases as u64,
                        " active RX leases",
                    ),
                ),
            );
        }
        let unregister = self.segment_open;
        self.segment_open = false;
        Ok(unregister)
    }

    /// The number of registered bytes.
    pub fn registered_len(&self) -> (length: usize)
        requires
            self.wf(),
        ensures
            length == if self@.open {
                self@.config.total()
            } else {
                0
            },
    {
        if self.segment_open {
            match self.config.total_len() {
                Ok(length) => length,
                Err(_) => 0,
            }
        } else {
            0
        }
    }

    /// The alignment of the segment.
    pub fn alignment(&self) -> (alignment: usize)
        ensures
            alignment == self@.config.alignment,
    {
        self.config.alignment
    }
}

/// The state that a work request of this operation leaves a slot in while it is posted.
pub open spec fn failed_from(operation: OperationType) -> SlotState {
    match operation {
        OperationType::Send => SlotState::SendPosted,
        OperationType::Recv => SlotState::PostedRecv,
    }
}

/// The state that a completed work request of this operation leaves a slot in.
pub open spec fn failed_to(operation: OperationType) -> SlotState {
    match operation {
        OperationType::Send => SlotState::SendCompleted,
        OperationType::Recv => SlotState::RecvCompleted,
    }
}

/// Read-only ownership of a completed receive window. Its slots need not lie next to each other:
/// the spans keep wire order. The slots stay leased until the pool takes the window back in
/// [`UrmaBufferPool::recycle_recv_lease`].
pub struct RegisteredRxWindowLease {
    spans: Vec<RegisteredRxSpan>,
    length: usize,
    chunks: Vec<RegisteredRxChunk>,
    slots: Vec<SlotId>,
    pool_id: u64,
}

impl View for RegisteredRxWindowLease {
    type V = LeaseView;

    closed spec fn view(&self) -> LeaseView {
        LeaseView {
            spans: self.spans@,
            length: self.length as nat,
            chunks: self.chunks@,
            slots: self.slots@,
            pool_id: self.pool_id,
        }
    }
}

/// The number of bytes in the parts.
pub open spec fn parts_bytes(parts: Seq<usize>) -> nat
    decreases parts.len(),
{
    if parts.len() == 0 {
        0
    } else {
        parts_bytes(parts.drop_last()) + parts.last() as nat
    }
}

proof fn lemma_parts_bytes(parts: Seq<usize>, few: int)
    requires
        0 <= few <= parts.len(),
    ensures
        parts_bytes(parts.take(few)) <= parts_bytes(parts),
    decreases parts.len() - few,
{
    if few < parts.len() {
        lemma_parts_bytes(parts, few + 1);
        assert(parts.take(few + 1).drop_last() =~= parts.take(few));
    } else {
        assert(parts.take(few) =~= parts);
    }
}

impl RegisteredRxWindowLease {
    /// The runs of bytes of the window, in wire order.
    pub fn parts(&self) -> (spans: &Vec<RegisteredRxSpan>)
        ensures
            spans@ == self@.spans,
    {
        &self.spans
    }

    /// The one run of bytes of a control message.
    pub fn single_span_bytes(&self) -> (span: Result<RegisteredRxSpan>)
        ensures
            match span {
                Ok(span) => self@.spans == seq![span],
                Err(error) => {
                    &&& self@.spans.len() != 1
                    &&& error@ == ErrorView::Protocol(
                        "control RX lease unexpectedly spans multiple slots"@,
                    )
                },
            },
    {
        if self.spans.len() != 1 {
            return Err(protocol("control RX lease unexpectedly spans multiple slots"));
        }
        assert(self@.spans =~= seq![self.spans@[0]]);
        Ok(self.spans[0])
    }

    /// The messages of the window, in wire order.
    pub fn chunks(&self) -> (chunks: &Vec<RegisteredRxChunk>)
        ensures
            chunks@ == self@.chunks,
    {
        &self.chunks
    }

    /// The number of bytes in the window.
    pub fn len(&self) -> (length: usize)
        ensures
            length == self@.length,
    {
        self.length
    }

    /// A window over memory that no pool owns: one span per part, the parts one after the other.
    pub fn detached(parts: Vec<usize>, chunks: Vec<RegisteredRxChunk>) -> (lease: Self)
        requires
            parts_bytes(parts@) <= usize::MAX,
        ensures
            lease@.wf(),
            lease@.length == parts_bytes(parts@),
            lease@.chunks == chunks@,
            lease@.slots == Seq::<SlotId>::empty(),
            lease@.pool_id == 0,
            lease@.spans.len() == parts@.len(),
            forall|i: int|
                0 <= i < parts@.len() ==> #[trigger] lease@.spans[i] == (RegisteredRxSpan {
                    offset: parts_bytes(parts@.take(i)) as usize,
                    length: parts@[i],
                }),
    {
        let mut spans: Vec<RegisteredRxSpan> = Vec::new();
        let mut length: usize = 0;
        let mut index: usize = 0;
        while index < parts.len()
            invariant
                parts_bytes(parts@) <= usize::MAX,
                index <= parts@.len(),
                length == parts_bytes(parts@.take(index as int)),
                spans@.len() == index,
                forall|i: int|
                    0 <= i < index ==> #[trigger] spans@[i] == (RegisteredRxSpan {
                        offset: parts_bytes(parts@.take(i)) as usize,
                        length: parts@[i],
                    }),
            decreases parts@.len() - index,
        {
            proof {
                let longer = parts@.take(index + 1);
                assert(longer.drop_last() =~= parts@.take(index as int));
                assert(longer.last() == parts@[index as int]);
                lemma_parts_bytes(parts@, index + 1);
            }
            spans.push(RegisteredRxSpan { offset: length, length: parts[index] });
            length = length + parts[index];
            index += 1;
        }
        assert(parts@.take(parts@.len() as int) =~= parts@);
        let slots: Vec<SlotId> = Vec::new();
        assert(slots@ =~= Seq::<SlotId>::empty());
        RegisteredRxWindowLease { spans, length, chunks, slots, pool_id: 0 }
    }
}

impl UrmaBufferPool {
    /// Leases out the bytes of completed receives as one window. Every message but the last must
    /// fill its slot.
    pub fn lease_completed_recv_window(&mut self, completions: &[(SlotId, Option<u64>, u32)]) -> (leased:
        Result<RegisteredRxWindowLease>)
        requires
            old(self).wf(),
        ensures
            final(self).wf(),
            ({
                let slots = model::window_slots(completions@);
                let refused = old(self)@.lease_request_error(completions@);
                let moved = old(self)@.after_moves(
                    slots,
                    SlotState::RecvCompleted,
                    SlotState::Leased,
                );
                let stuck = old(self)@.moves_error(
                    slots,
                    SlotState::RecvCompleted,
                    SlotState::Leased,
                );
                match leased {
                    Ok(lease) => {
                        &&& refused is None && stuck is None
                        &&& lease@ == old(self)@.window(completions@)
                        &&& lease@.wf()
                        &&& final(self)@ == (PoolView {
                            leases: if moved.leases < usize::MAX {
                                moved.leases + 1
                            } else {
                                usize::MAX as nat
                            },
                            ..moved
                        })
                    },
                    Err(error) => match refused {
                        Some(expected) => error@ == expected && final(self)@ == old(self)@,
                        None => stuck == Some(error@) && final(self)@ == moved,
                    },
                }
            }),
    {
        let ghost before = self@;
        let count: usize = completions.len();
        if count == 0 {
            return Err(invalid("RX lease requires at least one completion"));
        }
        if !self.segment_open {
            return Err(invalid("registered Segment is closed"));
        }
        let mut slots: Vec<SlotId> = Vec::new();
        let mut chunks: Vec<RegisteredRxChunk> = Vec::new();
        let mut spans: Vec<RegisteredRxSpan> = Vec::new();
        let mut total: usize = 0;
        let mut index: usize = 0;
        let ghost ids = model::window_slots(completions@);
        let ghost window = before.window(completions@);
        let ghost memory = Seq::new(before.config.total(), |i: int| 0u8);
        while index < count
            invariant
                self.wf(),
                self@ == before,
                before == old(self)@,
                before.open,
                count == completions@.len(),
                count > 0,
                memory.len() == before.config.total(),
                ids == model::window_slots(completions@),
                window == before.window(completions@),
                index <= count,
                before.lease_items_error(completions@, index as nat) is None,
                total == model::window_bytes(completions@.take(index as int)),
                spans@ == before.window_spans(completions@.take(index as int)),
                slots@ == ids.take(index as int),
                chunks@ == window.chunks.take(index as int),
            decreases count - index,
        {
            let (slot, sequence, length): (SlotId, Option<u64>, u32) = completions[index];
            proof {
                let longer = completions@.take(index + 1);
                assert(longer.drop_last() =~= completions@.take(index as int));
                assert(longer.last() == completions@[index as int]);
                before.lemma_window_spans(memory, completions@, index as nat);
                if before.lease_item_error(completions@, index as int) is Some {
                    before.lemma_lease_items_error(completions@, (index + 1) as nat, count as nat);
                } else {
                    before.lemma_window_spans(memory, completions@, (index + 1) as nat);
                }
            }
            let (offset, capacity, kind, state): (usize, usize, SlotKind, SlotState) =
                match self.slot_fields(slot) {
                Ok(fields) => fields,
                Err(error) => {
                    return Err(error);
                },
            };
            if kind != SlotKind::Rx || state != SlotState::RecvCompleted {
                return Err(protocol("RX lease requires completed receive slots"));
            }
            let length: usize = length as usize;
            if length == 0 || length > capacity {
                return Err(protocol("invalid RX lease chunk length"));
            }
            if index + 1 != count && length != capacity {
                return Err(protocol("only the final RX lease chunk may be short"));
            }
            total = match total.checked_add(length) {
                Some(total) => total,
                None => {
                    return Err(protocol("RX lease length overflow"));
                },
            };
            let continues = spans.len() > 0 && spans[spans.len() - 1].offset + spans[spans.len()
                - 1].length == offset;
            if continues {
                let last = spans.len() - 1;
                let joined = RegisteredRxSpan {
                    offset: spans[last].offset,
                    length: spans[last].length + length,
                };
                let ghost earlier = spans@;
                spans.set(last, joined);
                assert(spans@ =~= earlier.drop_last().push(joined));
            } else {
                spans.push(RegisteredRxSpan { offset, length });
            }
            slots.push(slot);
            chunks.push(RegisteredRxChunk { sequence, length });
            assert(slots@ =~= ids.take(index + 1));
            assert(chunks@ =~= window.chunks.take(index + 1));
            index += 1;
        }
        assert(completions@.take(count as int) =~= completions@);
        assert(ids.take(count as int) =~= ids);
        assert(window.chunks.take(count as int) =~= window.chunks);
        let mut moved: usize = 0;
        while moved < slots.len()
            invariant
                self.wf(),
                before == old(self)@,
                before.lease_request_error(completions@) is None,
                slots@ == ids,
                ids == model::window_slots(completions@),
                moved <= slots@.len(),
                self@ == before.after_moves(
                    ids.take(moved as int),
                    SlotState::RecvCompleted,
                    SlotState::Leased,
                ),
                before.moves_error(
                    ids.take(moved as int),
                    SlotState::RecvCompleted,
                    SlotState::Leased,
                ) is None,
            decreases slots@.len() - moved,
        {
            let slot = slots[moved];
            proof {
                let longer = ids.take(moved + 1);
                assert(longer.drop_last() =~= ids.take(moved as int));
                assert(longer.last() == slot);
            }
            match self.transition(slot, SlotState::RecvCompleted, SlotState::Leased) {
                Ok(()) => {},
                Err(error) => {
                    proof {
                        before.lemma_moves_stop(
                            ids,
                            SlotState::RecvCompleted,
                            SlotState::Leased,
                            moved + 1,
                        );
                    }
                    return Err(error);
                },
            }
            moved += 1;
        }
        proof {
            before.lemma_moved_are_distinct(ids, SlotState::RecvCompleted, SlotState::Leased);
        }
        self.active_rx_leases = self.active_rx_leases.saturating_add(1);
        let lease = RegisteredRxWindowLease {
            spans,
            length: total,
            chunks,
            slots,
            pool_id: self.pool_id,
        };
        proof {
            before.lemma_moves_keep(ids, SlotState::RecvCompleted, SlotState::Leased);
            assert(lease@ =~= window);
        }
        Ok(lease)
    }

    /// Takes a window back: its slots become free, in wire order. Says how many there were.
    pub fn recycle_recv_lease(&mut self, lease: RegisteredRxWindowLease) -> (recycled: Result<usize>)
        requires
            old(self).wf(),
            lease@.wf(),
        ensures
            final(self).wf(),
            match recycled {
                Ok(count) => {
                    &&& old(self)@.recycle_error(lease@) is None
                    &&& count == lease@.slots.len()
                    &&& final(self)@ == old(self)@.after_recycle(lease@)
                },
                Err(error) => {
                    &&& old(self)@.recycle_error(lease@) == Some(error@)
                    &&& final(self)@ == old(self)@
                },
            },
    {
        let ghost before = self@;
        let ghost ids = lease@.slots;
        if lease.pool_id != self.pool_id {
            return Err(protocol("RX lease belongs to another pool"));
        }
        let mut index: usize = 0;
        while index < lease.slots.len()
            invariant
                self.wf(),
                self@ == before,
                before == old(self)@,
                lease@.pool_id == before.pool_id,
                ids == lease@.slots,
                index <= ids.len(),
                before.leased_error(ids.take(index as int)) is None,
            decreases ids.len() - index,
        {
            let slot = lease.slots[index];
            proof {
                let longer = ids.take(index + 1);
                assert(longer.drop_last() =~= ids.take(index as int));
                assert(longer.last() == slot);
                if before.leased_error(longer) is Some {
                    before.lemma_leased_stop(ids, index + 1);
                }
            }
            let (_, _, kind, state): (usize, usize, SlotKind, SlotState) = match self.slot_fields(
                slot,
            ) {
                Ok(fields) => fields,
                Err(error) => {
                    return Err(error);
                },
            };
            if kind != SlotKind::Rx || state != SlotState::Leased {
                return Err(protocol("RX lease slot state mismatch"));
            }
            index += 1;
        }
        assert(ids.take(ids.len() as int) =~= ids);
        // First-in first-out allocation keeps fresh backing ahead of recycled windows and
        // preserves each released window's receive order.
        let mut returned: usize = 0;
        while returned < lease.slots.len()
            invariant
                self.wf(),
                before.wf(),
                lease@.wf(),
                ids == lease@.slots,
                before.leased_error(ids) is None,
                returned <= ids.len(),
                self@ == before.after_recycled_slots(ids.take(returned as int)),
            decreases ids.len() - returned,
        {
            let slot = lease.slots[returned];
            let ghost earlier = self@;
            proof {
                let done = ids.take(returned as int);
                let longer = ids.take(returned + 1);
                assert(longer.drop_last() =~= done);
                assert(longer.last() == slot);
                before.lemma_leased_prefix(ids, returned as int);
                before.lemma_leased_prefix(ids, returned + 1);
                before.lemma_recycled_slots(done);
                assert(!done.contains(slot));
                assert(earlier.state(slot) == before.state(slot));
            }
            let moved = self.transition(slot, SlotState::Leased, SlotState::RecvCompleted);
            assert(moved is Ok);
            let released = self.release(slot);
            assert(released is Ok);
            assert(self@ =~= earlier.after_release(slot));
            returned += 1;
        }
        let count: usize = lease.slots.len();
        self.active_rx_leases = self.active_rx_leases.saturating_sub(1);
        proof {
            before.lemma_recycled_slots(ids);
            before.lemma_recycled_keep(ids);
            assert(self@ =~= before.after_recycle(lease@));
        }
        Ok(count)
    }
}

} // verus!
