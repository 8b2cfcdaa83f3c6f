//! What a pool of slots keeps to.

use vstd::prelude::*;

use super::model;
use super::{
    count_states, BufferPoolConfig, LeaseView, PoolView, SlotId, SlotKind,
    SlotState, SlotStateSnapshot,
};

verus! {

/// A pool can be laid out exactly where its slots have a size and there are some of each direction, the
/// alignment is a power of two that suits a pointer, and the slots and their bytes can be counted.
pub proof fn layouts_are_valid_exactly_when(config: BufferPoolConfig)
    ensures
        PoolView::create_error(config) is None <==> {
            let tx: int = if config.alias_tx_slots {
                1
            } else {
                config.tx_slot_count as int
            };
            &&& config.slot_size > 0
            &&& config.tx_slot_count > 0
            &&& config.rx_slot_count > 0
            &&& config.alignment * 8 >= usize::BITS
            &&& super::power_of_two(config.alignment as nat)
            &&& config.tx_slot_count + config.rx_slot_count <= usize::MAX
            &&& config.slot_size * (tx + config.rx_slot_count) <= usize::MAX
        },
{
}

/// The segment holds a slot's worth of bytes for each receive slot, and for each send slot unless they
/// share one.
pub proof fn segments_hold_their_slots(config: BufferPoolConfig)
    ensures
        config.alias_tx_slots ==> config.total() == config.slot_size * (1 + config.rx_slot_count),
        !config.alias_tx_slots ==> config.total() == config.slot_size * (config.tx_slot_count
            + config.rx_slot_count),
{
}

/// A new pool hands out its send slots from the first on, and its receive slots from the first after
/// them on.
pub proof fn new_pools_hand_out_slots_in_order(config: BufferPoolConfig, pool_id: u64, k: int)
    requires
        PoolView::create_error(config) is None,
        0 <= k,
    ensures
        ({
            let pool = PoolView::fresh(config, pool_id);
            &&& pool.free_count(SlotKind::Tx) == config.tx_slot_count
            &&& pool.free_count(SlotKind::Rx) == config.rx_slot_count
            &&& k < config.tx_slot_count ==> pool.allocations(SlotKind::Tx, (k + 1) as nat)[k]
                == SlotId::at(k as usize)
            &&& k < config.rx_slot_count ==> pool.allocations(SlotKind::Rx, (k + 1) as nat)[k]
                == SlotId::at((config.tx_slot_count + k) as usize)
            &&& forall|i: int|
                0 <= i < config.tx_slot_count + config.rx_slot_count
                    ==> #[trigger] pool.states[i] == SlotState::Free
            &&& pool.states.len() == config.tx_slot_count + config.rx_slot_count
            &&& pool.accepting
            &&& pool.open
            &&& pool.leases == 0
        }),
{
}

/// An allocation takes one slot of its direction that was free, and leaves all others as they were.
pub proof fn allocations_take_one_free_slot(pool: PoolView, kind: SlotKind)
    requires
        pool.wf(),
        pool.free_count(kind) > 0,
    ensures
        ({
            let after = pool.after_allocate(kind);
            let other = match kind {
                SlotKind::Tx => SlotKind::Rx,
                SlotKind::Rx => SlotKind::Tx,
            };
            &&& pool.next_free(kind) matches Some(index)
            &&& index < pool.states.len()
            &&& pool.kind(index as int) == kind
            &&& pool.states[index as int] == SlotState::Free
            &&& after.states == pool.states.update(index as int, SlotState::Allocated)
            &&& after.free_count(kind) == pool.free_count(kind) - 1
            &&& after.free_count(other) == pool.free_count(other)
        }),
{
    pool.lemma_allocate(kind);
}

/// There is a slot to allocate exactly where one of the direction is free.
pub proof fn free_slots_can_be_allocated(pool: PoolView, kind: SlotKind)
    requires
        pool.wf(),
    ensures
        pool.next_free(kind) is Some <==> exists|i: int|
            0 <= i < pool.states.len() && #[trigger] pool.states[i] == SlotState::Free && pool.kind(i)
                == kind,
{
    if pool.next_free(kind) is Some {
        pool.lemma_allocate(kind);
        assert(pool.states[pool.next_free(kind)->0 as int] == SlotState::Free);
    } else if exists|i: int|
        0 <= i < pool.states.len() && #[trigger] pool.states[i] == SlotState::Free && pool.kind(i)
            == kind {
        let i = choose|i: int|
            0 <= i < pool.states.len() && #[trigger] pool.states[i] == SlotState::Free && pool.kind(i)
                == kind;
        match kind {
            SlotKind::Tx => assert(pool.free_tx.contains(i as usize)),
            SlotKind::Rx => assert(pool.free_rx.contains(i as usize)),
        }
    }
}

/// A send slot that is given back is the next to be handed out: an allocation and its release leave the
/// pool as it was. A receive slot goes behind all others that are free.
pub proof fn releases_undo_allocations(pool: PoolView)
    requires
        pool.wf(),
        pool.free_tx.len() > 0,
        pool.free_rx.len() > 0,
    ensures
        pool.after_allocate(SlotKind::Tx).after_release(SlotId::at(pool.next_free(SlotKind::Tx)->0))
            == pool,
        ({
            let taken = pool.next_free(SlotKind::Rx)->0;
            let after = pool.after_allocate(SlotKind::Rx).after_release(SlotId::at(taken));
            &&& after.states == pool.states
            &&& after.free_rx == pool.free_rx.skip(1).push(taken)
            &&& after.free_tx == pool.free_tx
        }),
{
    pool.lemma_allocate(SlotKind::Tx);
    pool.lemma_allocate(SlotKind::Rx);
    let tx = pool.free_tx.last();
    let rx = pool.free_rx[0];
    SlotId::at(tx).lemma_position();
    let back = pool.after_allocate(SlotKind::Tx).after_release(SlotId::at(tx));
    assert(back.states =~= pool.states);
    assert(back.free_tx =~= pool.free_tx);
    let other = pool.after_allocate(SlotKind::Rx).after_release(SlotId::at(rx));
    assert(other.states =~= pool.states);
    assert(other.free_rx =~= pool.free_rx.skip(1).push(rx));
}

/// A slot can be given back exactly where the pool has it and no work request or lease may use it.
pub proof fn slots_are_released_exactly_when(pool: PoolView, id: SlotId)
    ensures
        pool.release_error(id) is None <==> id.position() < pool.states.len() && (
        pool.states[id.position() as int] == SlotState::Allocated
            || pool.states[id.position() as int] == SlotState::RecvCompleted
            || pool.states[id.position() as int] == SlotState::SendCompleted),
{
}

/// A batch is prepared exactly where the send slots do not share a range, there are as many as parts,
/// every part but the last fills a slot and the last is not empty, and the segment is open and the
/// whole batch can be counted in a work request.
pub proof fn batches_are_prepared_exactly_when(pool: PoolView, lengths: Seq<usize>)
    requires
        pool.config.slot_size > 0,
    ensures
        pool.batch_request_error(lengths) is None <==> {
            &&& !pool.config.alias_tx_slots
            &&& 1 <= lengths.len() <= pool.config.tx_slot_count
            &&& forall|i: int|
                0 <= i < lengths.len() - 1 ==> #[trigger] lengths[i] == pool.config.slot_size
            &&& 1 <= lengths.last() <= pool.config.slot_size
            &&& pool.open
            &&& super::pool::parts_bytes(lengths) <= u32::MAX
        },
{
    lemma_lengths(pool, lengths, lengths.len());
    if lengths.len() > 0 {
        let last = lengths.len() - 1;
        if pool.batch_lengths_error(lengths, lengths.len()) is None {
            assert(pool.batch_length_error(lengths, last) is None);
            assert forall|i: int| 0 <= i < last implies #[trigger] lengths[i]
                == pool.config.slot_size by {
                assert(pool.batch_length_error(lengths, i) is None);
            }
            lemma_full_parts(lengths, pool.config.slot_size);
        } else {
            let i = choose|i: int|
                0 <= i < lengths.len() && #[trigger] pool.batch_length_error(lengths, i) is Some;
            assert(pool.batch_length_error(lengths, i) is Some);
            assert(i < last ==> lengths[i] != pool.config.slot_size);
        }
    }
}

proof fn lemma_lengths(pool: PoolView, lengths: Seq<usize>, count: nat)
    requires
        count <= lengths.len(),
    ensures
        pool.batch_lengths_error(lengths, count) is None <==> forall|i: int|
            0 <= i < count ==> #[trigger] pool.batch_length_error(lengths, i) is None,
    decreases count,
{
    if count > 0 {
        lemma_lengths(pool, lengths, (count - 1) as nat);
        if pool.batch_lengths_error(lengths, count) is Some {
            assert(exists|i: int|
                0 <= i < count && #[trigger] pool.batch_length_error(lengths, i) is Some) by {
                if pool.batch_lengths_error(lengths, (count - 1) as nat) is None {
                    assert(pool.batch_length_error(lengths, count - 1) is Some);
                }
            }
        }
    }
}

proof fn lemma_full_parts(lengths: Seq<usize>, size: usize)
    requires
        lengths.len() > 0,
        forall|i: int| 0 <= i < lengths.len() - 1 ==> #[trigger] lengths[i] == size,
    ensures
        super::pool::parts_bytes(lengths) == size * (lengths.len() - 1) + lengths.last(),
    decreases lengths.len(),
{
    let shorter = lengths.drop_last();
    let n = lengths.len() - 1;
    if lengths.len() > 1 {
        assert forall|i: int| 0 <= i < shorter.len() - 1 implies #[trigger] shorter[i] == size by {
            assert(shorter[i] == lengths[i]);
        }
        lemma_full_parts(shorter, size);
        assert(shorter.last() == lengths[n - 1]);
        assert(size * (n - 1) + size == size * n) by (nonlinear_arith);
    } else {
        assert(size * 0 == 0) by (nonlinear_arith);
        assert(super::pool::parts_bytes(shorter) == 0);
    }
}

/// The parts of a batch lie end to end in the segment, one in each slot in a row, each with its own
/// length.
pub proof fn batches_lie_end_to_end(pool: PoolView, start: int, lengths: Seq<usize>, k: int)
    requires
        pool.wf(),
        !pool.config.alias_tx_slots,
        pool.free_run(start, lengths.len() as int),
        pool.batch_request_error(lengths) is None,
        0 <= k < lengths.len(),
    ensures
        ({
            let layouts = pool.batch_layouts(start, lengths);
            &&& layouts.len() == lengths.len()
            &&& layouts[k].0 == SlotId::at((start + k) as usize)
            &&& layouts[k].2 == lengths[k]
            &&& layouts[k].1 == pool.config.slot_size * (start + k)
            &&& k > 0 ==> layouts[k].1 == layouts[k - 1].1 + layouts[k - 1].2
        }),
{
    batches_are_prepared_exactly_when(pool, lengths);
    let size = pool.config.slot_size as int;
    let slots = pool.config.tx_slot_count + pool.config.rx_slot_count;
    assert(0 <= size * (start + k) && size * (start + k) <= size * slots) by (nonlinear_arith)
        requires
            0 <= start + k <= slots,
            size >= 0,
    ;
    let before = lengths.len() - 1;
    assert(pool.config.total() == size * slots);
    assert(before > 0 ==> size * before >= size) by (nonlinear_arith)
        requires
            size >= 0,
    ;
    assert(lengths[k] <= size && (k < before ==> lengths[k] == size));
    assert(lengths[k] <= u32::MAX);
    if k > 0 {
        assert(lengths[k - 1] == size);
        assert(0 <= size * (start + k - 1) && size * (start + k - 1) + size == size * (start + k))
            by (nonlinear_arith)
            requires
                1 <= start + k,
                size >= 0,
        ;
    }
}

/// A batch takes its run of slots and no other, and keeps the order of the free slots that stay.
pub proof fn batches_take_their_run(pool: PoolView, start: int, n: int)
    requires
        pool.wf(),
        pool.free_run(start, n),
        n >= 0,
    ensures
        ({
            let after = pool.after_batch(start, n);
            &&& after.states.len() == pool.states.len()
            &&& forall|i: int|
                0 <= i < pool.states.len() ==> #[trigger] after.states[i] == if start <= i < start
                    + n {
                    SlotState::Allocated
                } else {
                    pool.states[i]
                }
            &&& after.free_rx == pool.free_rx
            &&& after.free_tx == pool.free_tx.filter(|i: usize| !(start <= i < start + n))
        }),
{
    lemma_without(pool.free_tx, start, start + n);
}

proof fn lemma_without(list: Seq<usize>, low: int, high: int)
    ensures
        model::without_range(list, low, high) == list.filter(|i: usize| !(low <= i < high)),
    decreases list.len(),
{
    reveal(Seq::filter);
    if list.len() > 0 {
        lemma_without(list.drop_last(), low, high);
    } else {
        assert(model::without_range(list, low, high) =~= list.filter(
            |i: usize| !(low <= i < high),
        ));
    }
}

/// A slot is written exactly where it is an allocated send slot with a range of its own, the bytes fit
/// in it and the segment is open.
pub proof fn slots_are_written_exactly_when(pool: PoolView, id: SlotId, length: nat)
    ensures
        pool.write_error(id, length) is None <==> {
            &&& !pool.config.alias_tx_slots
            &&& id.position() < pool.states.len()
            &&& id.position() < pool.config.tx_slot_count
            &&& pool.states[id.position() as int] == SlotState::Allocated
            &&& 1 <= length <= pool.config.slot_size
            &&& length <= u32::MAX
            &&& pool.open
        },
{
}

/// The shared range is filled exactly where the send slots share one, the bytes fit in it, every send
/// slot is free and the segment is open; it is sent exactly from an allocated send slot.
pub proof fn shared_ranges_are_filled_exactly_when(pool: PoolView, id: SlotId, length: nat)
    requires
        pool.wf(),
    ensures
        pool.aliased_write_error(length) is None <==> {
            &&& pool.config.alias_tx_slots
            &&& 1 <= length <= pool.config.slot_size
            &&& forall|i: int|
                0 <= i < pool.config.tx_slot_count ==> #[trigger] pool.states[i] == SlotState::Free
            &&& pool.open
        },
        pool.aliased_layout_error(id, length) is None <==> {
            &&& pool.config.alias_tx_slots
            &&& id.position() < pool.config.tx_slot_count
            &&& pool.states[id.position() as int] == SlotState::Allocated
            &&& 1 <= length <= pool.config.slot_size
            &&& length <= u32::MAX
        },
{
}

/// A receive is posted exactly on an allocated receive slot, and completes exactly on a posted one,
/// with one to `slot_size` bytes.
pub proof fn receives_are_posted_and_completed_exactly_when(pool: PoolView, id: SlotId, length: nat)
    requires
        pool.wf(),
    ensures
        pool.recv_layout_error(id) is None <==> {
            &&& pool.config.tx_slot_count <= id.position() < pool.states.len()
            &&& pool.states[id.position() as int] == SlotState::Allocated
            &&& pool.config.slot_size <= u32::MAX
        },
        pool.recv_error(id, length) is None <==> {
            &&& pool.config.tx_slot_count <= id.position() < pool.states.len()
            &&& pool.states[id.position() as int] == SlotState::PostedRecv
            &&& 1 <= length <= pool.config.slot_size
        },
{
}

/// A slot is marked as posted exactly where it is an allocated one of the direction.
pub proof fn slots_are_posted_exactly_when(pool: PoolView, id: SlotId, kind: SlotKind)
    ensures
        pool.mark_posted_error(id, kind) is None <==> {
            &&& id.position() < pool.states.len()
            &&& kind == SlotKind::Tx <==> id.position() < pool.config.tx_slot_count
            &&& pool.states[id.position() as int] == SlotState::Allocated
        },
        model::posted_state(SlotKind::Tx) == SlotState::SendPosted,
        model::posted_state(SlotKind::Rx) == SlotState::PostedRecv,
{
}

/// A window is leased exactly where it has completions, the segment is open, and each is of a receive
/// slot that completed, with a full slot of bytes but for the last.
pub proof fn windows_are_leased_exactly_when(
    pool: PoolView,
    completions: Seq<(SlotId, Option<u64>, u32)>,
)
    requires
        pool.wf(),
        window_fits(completions),
    ensures
        pool.lease_request_error(completions) is None <==> {
            &&& completions.len() > 0
            &&& pool.open
            &&& forall|i: int|
                0 <= i < completions.len() ==> {
                    let (slot, _, length) = #[trigger] completions[i];
                    &&& pool.config.tx_slot_count <= slot.position() < pool.states.len()
                    &&& pool.states[slot.position() as int] == SlotState::RecvCompleted
                    &&& 1 <= length <= pool.config.slot_size
                    &&& i < completions.len() - 1 ==> length == pool.config.slot_size
                }
        },
{
    lemma_items(pool, completions, completions.len());
    assert forall|i: int| 0 <= i < completions.len() implies (#[trigger] pool.lease_item_error(
        completions,
        i,
    ) is None <==> {
        let (slot, _, length) = completions[i];
        &&& pool.config.tx_slot_count <= slot.position() < pool.states.len()
        &&& pool.states[slot.position() as int] == SlotState::RecvCompleted
        &&& 1 <= length <= pool.config.slot_size
        &&& i < completions.len() - 1 ==> length == pool.config.slot_size
    }) by {
        lemma_window_grows(completions, i + 1);
    }
    if forall|i: int|
        0 <= i < completions.len() ==> #[trigger] pool.lease_item_error(completions, i) is None {
        assert forall|i: int| 0 <= i < completions.len() implies ({
            let (slot, _, length) = #[trigger] completions[i];
            &&& pool.config.tx_slot_count <= slot.position() < pool.states.len()
            &&& pool.states[slot.position() as int] == SlotState::RecvCompleted
            &&& 1 <= length <= pool.config.slot_size
            &&& i < completions.len() - 1 ==> length == pool.config.slot_size
        }) by {
            assert(pool.lease_item_error(completions, i) is None);
        }
    } else {
        let i = choose|i: int|
            0 <= i < completions.len() && #[trigger] pool.lease_item_error(completions, i) is Some;
        let item = completions[i];
        assert(pool.lease_item_error(completions, i) is Some);
    }
}

/// Whether the bytes of a window can be counted.
pub open spec fn window_fits(completions: Seq<(SlotId, Option<u64>, u32)>) -> bool {
    model::window_bytes(completions) <= usize::MAX
}

proof fn lemma_window_grows(completions: Seq<(SlotId, Option<u64>, u32)>, few: int)
    requires
        0 <= few <= completions.len(),
    ensures
        model::window_bytes(completions.take(few)) <= model::window_bytes(completions),
    decreases completions.len() - few,
{
    if few < completions.len() {
        lemma_window_grows(completions, few + 1);
        assert(completions.take(few + 1).drop_last() =~= completions.take(few));
    } else {
        assert(completions.take(few) =~= completions);
    }
}

proof fn lemma_items(pool: PoolView, completions: Seq<(SlotId, Option<u64>, u32)>, count: nat)
    requires
        count <= completions.len(),
    ensures
        pool.lease_items_error(completions, count) is None <==> forall|i: int|
            0 <= i < count ==> #[trigger] pool.lease_item_error(completions, i) is None,
    decreases count,
{
    if count > 0 {
        lemma_items(pool, completions, (count - 1) as nat);
        if pool.lease_items_error(completions, count) is Some {
            assert(exists|i: int|
                0 <= i < count && #[trigger] pool.lease_item_error(completions, i) is Some) by {
                if pool.lease_items_error(completions, (count - 1) as nat) is None {
                    assert(pool.lease_item_error(completions, count - 1) is Some);
                }
            }
        }
    }
}

/// The bytes of two windows together are those of the first and those of the second, and one completion
/// counts for the bytes that it received.
pub proof fn window_bytes_add_up(
    earlier: Seq<(SlotId, Option<u64>, u32)>,
    later: Seq<(SlotId, Option<u64>, u32)>,
    completion: (SlotId, Option<u64>, u32),
)
    ensures
        model::window_bytes(earlier + later) == model::window_bytes(earlier) + model::window_bytes(
            later,
        ),
        model::window_bytes(seq![completion]) == completion.2,
    decreases later.len(),
{
    reveal_with_fuel(model::window_bytes, 2);
    assert(seq![completion].drop_last() =~= Seq::<(SlotId, Option<u64>, u32)>::empty());
    if later.len() == 0 {
        assert(earlier + later =~= earlier);
    } else {
        window_bytes_add_up(earlier, later.drop_last(), completion);
        assert((earlier + later).drop_last() =~= earlier + later.drop_last());
    }
}

/// A window keeps its completions in order: the slot, the sequence and the length of each; it is as
/// long as all of them together, and so are its spans.
pub proof fn windows_keep_their_completions(
    pool: PoolView,
    completions: Seq<(SlotId, Option<u64>, u32)>,
    k: int,
)
    requires
        pool.wf(),
        pool.lease_request_error(completions) is None,
        0 <= k < completions.len(),
    ensures
        ({
            let window = pool.window(completions);
            &&& window.slots.len() == completions.len()
            &&& window.chunks.len() == completions.len()
            &&& window.slots[k] == completions[k].0
            &&& window.chunks[k].sequence == completions[k].1
            &&& window.chunks[k].length == completions[k].2
            &&& window.length == model::window_bytes(completions)
            &&& window.pool_id == pool.pool_id
        }),
{
}

/// A window that was leased is given back to the pool that it was leased from, and no other: its slots
/// are then free, behind all others and in its own order.
pub proof fn windows_are_given_back_in_order(pool: PoolView, lease: LeaseView)
    requires
        pool.wf(),
        lease.wf(),
        pool.recycle_error(lease) is None,
    ensures
        ({
            let after = pool.after_recycle(lease);
            &&& lease.pool_id == pool.pool_id
            &&& after.free_tx == pool.free_tx
            &&& after.free_rx == pool.free_rx + Seq::new(
                lease.slots.len(),
                |k: int| lease.slots[k].position() as usize,
            )
            &&& forall|k: int|
                0 <= k < lease.slots.len() ==> pool.state(#[trigger] lease.slots[k])
                    == SlotState::Leased && after.state(lease.slots[k]) == SlotState::Free
            &&& forall|i: int|
                0 <= i < pool.states.len() && pool.states[i] != SlotState::Leased
                    ==> #[trigger] after.states[i] == pool.states[i]
            &&& pool.leases > 0 ==> after.leases == pool.leases - 1
        }),
{
    lemma_recycled(pool, lease.slots);
    lemma_leased(pool, lease.slots);
    let after = pool.after_recycle(lease);
    assert forall|k: int| 0 <= k < lease.slots.len() implies pool.state(#[trigger] lease.slots[k])
        == SlotState::Leased && after.state(lease.slots[k]) == SlotState::Free by {}
}

proof fn lemma_leased(pool: PoolView, slots: Seq<SlotId>)
    requires
        pool.leased_error(slots) is None,
    ensures
        forall|k: int|
            0 <= k < slots.len() ==> pool.has(#[trigger] slots[k]) && pool.state(slots[k])
                == SlotState::Leased && pool.kind(slots[k].position() as int) == SlotKind::Rx,
    decreases slots.len(),
{
    if slots.len() > 0 {
        lemma_leased(pool, slots.drop_last());
        assert forall|k: int| 0 <= k < slots.len() implies pool.has(#[trigger] slots[k])
            && pool.state(slots[k]) == SlotState::Leased && pool.kind(slots[k].position() as int)
            == SlotKind::Rx by {
            if k < slots.len() - 1 {
                assert(slots.drop_last()[k] == slots[k]);
            }
        }
    }
}

proof fn lemma_recycled(pool: PoolView, slots: Seq<SlotId>)
    requires
        pool.wf(),
        pool.leased_error(slots) is None,
    ensures
        ({
            let after = pool.after_recycled_slots(slots);
            &&& after.config == pool.config
            &&& after.leases == pool.leases
            &&& after.states.len() == pool.states.len()
            &&& after.free_tx == pool.free_tx
            &&& after.free_rx == pool.free_rx + Seq::new(
                slots.len(),
                |k: int| slots[k].position() as usize,
            )
            &&& forall|k: int|
                0 <= k < slots.len() ==> after.state(#[trigger] slots[k]) == SlotState::Free
            &&& forall|i: int|
                0 <= i < pool.states.len() && pool.states[i] != SlotState::Leased
                    ==> #[trigger] after.states[i] == pool.states[i]
        }),
    decreases slots.len(),
{
    let after = pool.after_recycled_slots(slots);
    let listed = Seq::new(slots.len(), |k: int| slots[k].position() as usize);
    if slots.len() == 0 {
        assert(pool.free_rx + listed =~= pool.free_rx);
    } else {
        let fewer = slots.drop_last();
        lemma_recycled(pool, fewer);
        lemma_leased(pool, slots);
        assert(pool.state(slots[slots.len() - 1]) == SlotState::Leased);
        let before = Seq::new(fewer.len(), |k: int| fewer[k].position() as usize);
        assert(listed =~= before.push(slots.last().position() as usize));
        assert(after.free_rx =~= pool.free_rx + listed);
        assert forall|k: int| 0 <= k < slots.len() implies after.state(#[trigger] slots[k])
            == SlotState::Free by {
            if k < slots.len() - 1 {
                assert(fewer[k] == slots[k]);
            }
        }
    }
}

/// Every slot is counted once, whatever its state.
pub proof fn snapshots_count_every_slot(snapshot: SlotStateSnapshot, states: Seq<SlotState>)
    requires
        snapshot.counts(states),
    ensures
        snapshot.free + snapshot.allocated + snapshot.posted_recv + snapshot.recv_completed
            + snapshot.send_posted + snapshot.send_completed + snapshot.other == states.len(),
        snapshot.total() == states.len(),
{
    lemma_all_counted(states);
}

proof fn lemma_all_counted(states: Seq<SlotState>)
    ensures
        count_states(states, |s: SlotState| s == SlotState::Free) + count_states(
            states,
            |s: SlotState| s == SlotState::Allocated,
        ) + count_states(states, |s: SlotState| s == SlotState::PostedRecv) + count_states(
            states,
            |s: SlotState| s == SlotState::RecvCompleted,
        ) + count_states(states, |s: SlotState| s == SlotState::SendPosted) + count_states(
            states,
            |s: SlotState| s == SlotState::SendCompleted,
        ) + count_states(
            states,
            |s: SlotState|
                s == SlotState::Posted || s == SlotState::Completed || s == SlotState::Leased,
        ) == states.len(),
    decreases states.len(),
{
    if states.len() > 0 {
        lemma_all_counted(states.drop_last());
    }
}

/// Slots that are moved from one state to another were all in the first and are all in the second, each
/// once; no other slot changes, nor does what is free.
pub proof fn moves_change_only_their_slots(
    pool: PoolView,
    ids: Seq<SlotId>,
    from: SlotState,
    to: SlotState,
)
    requires
        from != to,
        pool.states.len() <= usize::MAX,
        pool.moves_error(ids, from, to) is None,
    ensures
        ({
            let after = pool.after_moves(ids, from, to);
            &&& ids.no_duplicates()
            &&& forall|k: int|
                0 <= k < ids.len() ==> pool.has(#[trigger] ids[k]) && after.state(ids[k]) == to
            &&& forall|i: int|
                0 <= i < pool.states.len() && pool.states[i] != from ==> #[trigger] after.states[i]
                    == pool.states[i]
            &&& after.free_tx == pool.free_tx
            &&& after.free_rx == pool.free_rx
            &&& after.leases == pool.leases
        }),
{
    pool.lemma_moved_are_distinct(ids, from, to);
    pool.lemma_moves_keep(ids, from, to);
    lemma_moves_leave(pool, ids, from, to);
}

proof fn lemma_moves_leave(pool: PoolView, ids: Seq<SlotId>, from: SlotState, to: SlotState)
    requires
        from != to,
        pool.states.len() <= usize::MAX,
        pool.moves_error(ids, from, to) is None,
    ensures
        pool.after_moves(ids, from, to).states.len() == pool.states.len(),
        forall|i: int|
            0 <= i < pool.states.len() && pool.states[i] != from ==> #[trigger] pool.after_moves(
                ids,
                from,
                to,
            ).states[i] == pool.states[i],
        forall|i: int|
            0 <= i < pool.states.len() ==> #[trigger] pool.after_moves(ids, from, to).states[i]
                == pool.states[i] || pool.after_moves(ids, from, to).states[i] == to,
    decreases ids.len(),
{
    if ids.len() > 0 {
        lemma_moves_leave(pool, ids.drop_last(), from, to);
    }
}

} // verus!
