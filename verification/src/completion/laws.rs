//! What completions do to the work requests that are outstanding, and to their slots.

use vstd::prelude::*;

use super::model;
use super::{CompletionStats, EventView, PlaneView, PollerView};
use crate::buffer::SlotState;
use crate::error::ErrorView;
use crate::provider::{CompletionRecord, JfcEventReady};
use crate::wr::{OperationType, WrToken};

verus! {

/// Whether a completion record belongs to a poller and names a work request that can be read.
pub open spec fn belongs(poller: PollerView, record: CompletionRecord) -> bool {
    let token = WrToken::of_user_ctx(record.user_ctx);
    &&& record.user_ctx_valid
    &&& record.is_jetty
    &&& WrToken::decode_error(record.user_ctx) is None
    &&& token.connection_id == poller.connection_id
    &&& token.generation == poller.generation
}

/// A completion from the send queue is accepted exactly where it belongs to this poller, is of a send
/// that is outstanding and asked for a completion, and reports success.
pub proof fn send_completions_are_accepted_exactly_when(
    plane: PlaneView,
    record: CompletionRecord,
    read: core::result::Result<Seq<u8>, ErrorView>,
)
    requires
        plane.wf(),
    ensures
        plane.route(record, false, read).outcome is Ok <==> {
            &&& belongs(plane.poller, record)
            &&& !record.is_recv
            &&& WrToken::of_user_ctx(record.user_ctx).operation == OperationType::Send
            &&& plane.poller.send_order.contains(record.user_ctx)
            &&& plane.poller.entry(record.user_ctx).signaled
            &&& record.status == 0
        },
{
    reveal(PlaneView::route);
}

/// A completion from the receive queue is accepted exactly where it belongs to this poller, is of a
/// receive that is outstanding, reports success and a plain receive, and gives a length that the slot
/// holds, where the segment is open and the bytes could be read.
pub proof fn receive_completions_are_accepted_exactly_when(
    plane: PlaneView,
    record: CompletionRecord,
    read: core::result::Result<Seq<u8>, ErrorView>,
)
    requires
        plane.wf(),
    ensures
        plane.route(record, true, read).outcome is Ok <==> {
            &&& belongs(plane.poller, record)
            &&& record.is_recv
            &&& WrToken::of_user_ctx(record.user_ctx).operation == OperationType::Recv
            &&& plane.poller.tracks(record.user_ctx)
            &&& record.status == 0
            &&& record.opcode == 0
            &&& 1 <= record.completion_len <= plane.pool.config.slot_size
            &&& plane.pool.open
            &&& read is Ok
        },
{
    reveal(PlaneView::route);
    if plane.poller.take_error(record.user_ctx) is None && model::operation_of(record.user_ctx)
        == OperationType::Recv {
        plane.lemma_recv_taken(record.user_ctx);
    }
}

/// An accepted receive gives one event with its slot and the bytes that were read. Its slot is free
/// again, behind all others; its work request is no longer outstanding; nothing else changes but the
/// count and the last sequence.
pub proof fn receives_give_their_bytes(
    plane: PlaneView,
    record: CompletionRecord,
    read: core::result::Result<Seq<u8>, ErrorView>,
)
    requires
        plane.wf(),
        plane.route(record, true, read).outcome is Ok,
    ensures
        ({
            let routed = plane.route(record, true, read);
            let after = routed.plane;
            let slot = WrToken::of_user_ctx(record.user_ctx).slot;
            let at = slot.position() as int;
            let sequence = plane.poller.entry(record.user_ctx).sequence;
            &&& read is Ok
            &&& routed.outcome->Ok_0 == seq![EventView::RecvCompleted { slot, bytes: read->Ok_0 }]
            &&& after.poller.table.len() == plane.poller.table.len()
            &&& after.poller.table[at] is None
            &&& forall|i: int|
                0 <= i < plane.poller.table.len() && i != at ==> #[trigger] after.poller.table[i]
                    == plane.poller.table[i]
            &&& after.poller.receives == plane.poller.receives - 1
            &&& after.poller.send_order == plane.poller.send_order
            &&& sequence is Some ==> after.poller.last_recv == sequence
            &&& sequence is None ==> after.poller.last_recv == plane.poller.last_recv
            &&& after.poller.last_send == plane.poller.last_send
            &&& plane.poller.stats.recv_cqe < u64::MAX ==> after.poller.stats == (CompletionStats {
                recv_cqe: (plane.poller.stats.recv_cqe + 1) as u64,
                ..plane.poller.stats
            })
            &&& after.pool.free_rx == plane.pool.free_rx.push(slot.position() as usize)
            &&& after.pool.free_tx == plane.pool.free_tx
            &&& after.pool.states == plane.pool.states.update(at, SlotState::Free)
            &&& after.pool.config == plane.pool.config
            &&& after.pool.leases == plane.pool.leases
        }),
{
    reveal(PlaneView::route);
    plane.lemma_recv_taken(record.user_ctx);
    plane.poller.lemma_take_recv(record.user_ctx);
}

/// A receive completion that reports a failure gives its slot back and counts as a failure; its bytes
/// are not looked at.
pub proof fn failed_receives_give_their_slot_back(
    plane: PlaneView,
    record: CompletionRecord,
    read: core::result::Result<Seq<u8>, ErrorView>,
)
    requires
        plane.wf(),
        belongs(plane.poller, record),
        record.is_recv,
        WrToken::of_user_ctx(record.user_ctx).operation == OperationType::Recv,
        plane.poller.tracks(record.user_ctx),
        record.status != 0 || record.opcode != 0,
    ensures
        ({
            let routed = plane.route(record, true, read);
            let slot = WrToken::of_user_ctx(record.user_ctx).slot;
            let at = slot.position() as int;
            &&& routed.outcome is Err
            &&& record.status != 0 ==> routed.outcome->Err_0 == super::completion_failure(
                record.status,
                record.opcode,
                record.user_ctx,
            )
            &&& routed.plane.poller.table[at] is None
            &&& routed.plane.pool.states == plane.pool.states.update(at, SlotState::Free)
            &&& routed.plane.pool.free_rx == plane.pool.free_rx.push(slot.position() as usize)
            &&& routed.plane.poller.receives == plane.poller.receives - 1
            &&& plane.poller.stats.cqe_error < u64::MAX ==> routed.plane.poller.stats == (
            CompletionStats {
                cqe_error: (plane.poller.stats.cqe_error + 1) as u64,
                ..plane.poller.stats
            })
        }),
{
    reveal(PlaneView::route);
    plane.lemma_recv_taken(record.user_ctx);
    plane.poller.lemma_take_recv(record.user_ctx);
}

/// A completion that is not this poller's, or is of the other queue, leaves what is outstanding and all
/// slots as they are.
pub proof fn foreign_completions_change_nothing(
    plane: PlaneView,
    record: CompletionRecord,
    recv_queue: bool,
    read: core::result::Result<Seq<u8>, ErrorView>,
)
    requires
        !belongs(plane.poller, record) || record.is_recv != recv_queue || (WrToken::of_user_ctx(
            record.user_ctx,
        ).operation == OperationType::Recv) != recv_queue,
    ensures
        ({
            let routed = plane.route(record, recv_queue, read);
            &&& routed.outcome is Err
            &&& routed.plane.pool == plane.pool
            &&& routed.plane.poller.table == plane.poller.table
            &&& routed.plane.poller.send_order == plane.poller.send_order
            &&& routed.plane.poller.receives == plane.poller.receives
            &&& routed.plane.poller.retired == plane.poller.retired
            &&& routed.plane.poller.stats.send_cqe == plane.poller.stats.send_cqe
            &&& routed.plane.poller.stats.recv_cqe == plane.poller.stats.recv_cqe
            &&& routed.plane.poller.stats.send_retired == plane.poller.stats.send_retired
        }),
{
    reveal(PlaneView::route);
}

/// One send completion gives an event for its own send and for each that was posted before it, in the
/// order in which they were posted, frees their slots and no others, and counts one completion and as
/// many retired sends.
pub proof fn send_completions_free_their_slots(
    plane: PlaneView,
    record: CompletionRecord,
    read: core::result::Result<Seq<u8>, ErrorView>,
    last: int,
)
    requires
        plane.wf(),
        plane.route(record, false, read).outcome is Ok,
        0 <= last < plane.poller.send_order.len(),
        plane.poller.send_order[last] == record.user_ctx,
    ensures
        ({
            let routed = plane.route(record, false, read);
            let events = routed.outcome->Ok_0;
            let order = plane.poller.send_order;
            let after = routed.plane;
            &&& events.len() == last + 1
            &&& forall|k: int|
                0 <= k <= last ==> #[trigger] events[k] == EventView::SendCompleted {
                    slot: WrToken::of_user_ctx(order[k]).slot,
                }
            &&& after.poller.send_order == order.skip(last + 1)
            &&& after.poller.receives == plane.poller.receives
            &&& after.poller.table.len() == plane.poller.table.len()
            &&& forall|k: int|
                0 <= k <= last ==> after.poller.table[model::position_of(#[trigger] order[k])]
                    is None && after.pool.states[model::position_of(order[k])] == SlotState::Free
            &&& forall|k: int|
                last < k < order.len() ==> after.poller.tracks(#[trigger] order[k])
            &&& forall|i: int|
                plane.pool.tx() <= i < plane.pool.states.len() ==> #[trigger] after.pool.states[i]
                    == plane.pool.states[i]
            &&& after.pool.free_rx == plane.pool.free_rx
            &&& after.pool.free_tx.len() == plane.pool.free_tx.len() + last + 1
            &&& plane.poller.stats.send_cqe < u64::MAX && plane.poller.stats.send_retired + last
                < u64::MAX ==> after.poller.stats == (CompletionStats {
                send_cqe: (plane.poller.stats.send_cqe + 1) as u64,
                send_retired: (plane.poller.stats.send_retired + last + 1) as u64,
                ..plane.poller.stats
            })
            &&& plane.poller.entry(order[last]).sequence is Some ==> after.poller.last_send
                == plane.poller.entry(order[last]).sequence
            &&& after.poller.last_recv == plane.poller.last_recv
        }),
{
    reveal(PlaneView::route);
    let order = plane.poller.send_order;
    let counted_poller = PollerView {
        stats: CompletionStats {
            send_cqe: super::saturated(plane.poller.stats.send_cqe + 1),
            ..plane.poller.stats
        },
        ..plane.poller
    };
    let counted = PlaneView { poller: counted_poller, ..plane };
    plane.lemma_counters(counted_poller);
    assert(plane.frontier(record.user_ctx) == last) by {
        let at = plane.frontier(record.user_ctx);
        assert(order.contains(order[last]));
        assert(order[at] == order[last]);
    }
    lemma_retired(counted, (last + 1) as nat);
    counted.lemma_retire((last + 1) as nat);
    let after = counted.retire((last + 1) as nat);
    assert forall|k: int| last < k < order.len() implies after.poller.tracks(#[trigger] order[k]) by {
        assert(after.poller.send_order[k - (last + 1)] == order[k]);
        assert(after.poller.sends(after.poller.send_order[k - (last + 1)]));
    }
}

proof fn lemma_retired(plane: PlaneView, count: nat)
    requires
        plane.wf(),
        count <= plane.poller.send_order.len(),
    ensures
        ({
            let after = plane.retire(count);
            let order = plane.poller.send_order;
            &&& after.poller.receives == plane.poller.receives
            &&& after.poller.table.len() == plane.poller.table.len()
            &&& after.pool.states.len() == plane.pool.states.len()
            &&& after.pool.config == plane.pool.config
            &&& forall|k: int|
                0 <= k < count ==> after.poller.table[model::position_of(#[trigger] order[k])]
                    is None && after.pool.states[model::position_of(order[k])] == SlotState::Free
            &&& forall|k: int|
                count <= k < order.len() ==> after.poller.entry(#[trigger] order[k])
                    == plane.poller.entry(order[k])
            &&& forall|i: int|
                plane.pool.tx() <= i < plane.pool.states.len() ==> #[trigger] after.pool.states[i]
                    == plane.pool.states[i]
            &&& after.pool.free_rx == plane.pool.free_rx
            &&& after.pool.free_tx.len() == plane.pool.free_tx.len() + count
            &&& plane.poller.stats.send_retired + count <= u64::MAX ==> after.poller.stats == (
            CompletionStats {
                send_retired: (plane.poller.stats.send_retired + count) as u64,
                ..plane.poller.stats
            })
            &&& count > 0 && plane.poller.entry(order[count - 1]).sequence is Some
                ==> after.poller.last_send == plane.poller.entry(order[count - 1]).sequence
            &&& after.poller.last_recv == plane.poller.last_recv
        }),
    decreases count,
{
    let order = plane.poller.send_order;
    if count > 0 {
        let fewer = (count - 1) as nat;
        lemma_retired(plane, fewer);
        plane.lemma_retire(fewer);
        let before = plane.retire(fewer);
        before.lemma_retire_head();
        let user_ctx = order[fewer as int];
        assert(before.poller.send_order[0] == user_ctx);
        assert(before.poller.sends(user_ctx));
        let slot = model::position_of(user_ctx);
        assert(before.poller.table[slot] is Some);
        assert(before.held(slot));
        WrToken::of_user_ctx(user_ctx).slot.lemma_position();
        let after = plane.retire(count);
        assert forall|k: int| 0 <= k < count implies after.poller.table[model::position_of(
            #[trigger] order[k],
        )] is None && after.pool.states[model::position_of(order[k])] == SlotState::Free by {
            WrToken::of_user_ctx(order[k]).slot.lemma_position();
            assert(plane.poller.sends(order[k]));
        }
        assert forall|k: int| count <= k < order.len() implies after.poller.entry(
            #[trigger] order[k],
        ) == plane.poller.entry(order[k]) by {
            WrToken::of_user_ctx(order[k]).slot.lemma_position();
            assert(plane.poller.sends(order[k]));
            assert(plane.poller.sends(user_ctx));
            assert(order[k] != user_ctx);
            assert(model::position_of(order[k]) != slot);
        }
    }
}

/// A receive whose bytes stay in its slot is accepted exactly where it belongs to this poller, is of a
/// receive that is outstanding, reports success and a plain receive, and gives a length that the slot
/// holds.
pub proof fn leased_receives_are_accepted_exactly_when(plane: PlaneView, record: CompletionRecord)
    requires
        plane.wf(),
    ensures
        plane.route_leased(record).1 is Ok <==> {
            &&& belongs(plane.poller, record)
            &&& record.is_recv
            &&& WrToken::of_user_ctx(record.user_ctx).operation == OperationType::Recv
            &&& plane.poller.tracks(record.user_ctx)
            &&& record.status == 0
            &&& record.opcode == 0
            &&& 1 <= record.completion_len <= plane.pool.config.slot_size
        },
{
    if plane.poller.take_error(record.user_ctx) is None && model::operation_of(record.user_ctx)
        == OperationType::Recv {
        plane.lemma_recv_taken(record.user_ctx);
    }
}

/// The length of a completed receive is the number of bytes that its completion reports, and its slot
/// and its sequence are those of the work request. The slot is kept, completed and not free, and the
/// receive is counted like any other.
pub proof fn leased_receives_keep_what_was_reported(plane: PlaneView, record: CompletionRecord)
    requires
        plane.wf(),
        plane.route_leased(record).1 is Ok,
    ensures
        ({
            let (after, completed) = plane.route_leased(record);
            let slot = WrToken::of_user_ctx(record.user_ctx).slot;
            let at = slot.position() as int;
            &&& completed->Ok_0.length == record.completion_len
            &&& completed->Ok_0.slot == slot
            &&& completed->Ok_0.sequence == plane.poller.entry(record.user_ctx).sequence
            &&& after.pool.states == plane.pool.states.update(at, SlotState::RecvCompleted)
            &&& after.pool.free_rx == plane.pool.free_rx
            &&& after.pool.free_tx == plane.pool.free_tx
            &&& after.poller.table == plane.poller.table.update(at, None)
            &&& after.poller.receives == plane.poller.receives - 1
            &&& after.poller.send_order == plane.poller.send_order
            &&& plane.poller.entry(record.user_ctx).sequence is Some ==> after.poller.last_recv
                == plane.poller.entry(record.user_ctx).sequence
            &&& plane.poller.stats.recv_cqe < u64::MAX ==> after.poller.stats == (CompletionStats {
                recv_cqe: (plane.poller.stats.recv_cqe + 1) as u64,
                ..plane.poller.stats
            })
        }),
{
    plane.lemma_recv_taken(record.user_ctx);
    plane.poller.lemma_take_recv(record.user_ctx);
}

/// A receive that is consumed in place succeeds exactly where it would be accepted otherwise, the
/// segment is open, and the consumer took the bytes; its slot is then free again, behind all others.
pub proof fn direct_receives_free_their_slot(
    plane: PlaneView,
    record: CompletionRecord,
    consumed: core::result::Result<core::result::Result<(), ErrorView>, ErrorView>,
)
    requires
        plane.wf(),
    ensures
        ({
            let (after, outcome) = plane.route_direct(record, consumed);
            let slot = WrToken::of_user_ctx(record.user_ctx).slot;
            let at = slot.position() as int;
            &&& outcome is Ok <==> plane.route_leased(record).1 is Ok && plane.pool.open && consumed
                is Ok && consumed->Ok_0 is Ok
            &&& outcome is Ok ==> {
                &&& after.pool.states == plane.pool.states.update(at, SlotState::Free)
                &&& after.pool.free_rx == plane.pool.free_rx.push(slot.position() as usize)
                &&& after.pool.free_tx == plane.pool.free_tx
                &&& after.poller == plane.route_leased(record).0.poller
            }
            &&& plane.route_leased(record).1 is Ok && plane.pool.open ==> (consumed matches Ok(
                Err(error),
            ) ==> {
                &&& outcome == Err::<(), ErrorView>(error)
                &&& after.pool.states == plane.pool.states.update(at, SlotState::Free)
                &&& after.poller.stats.recv_cqe == plane.poller.stats.recv_cqe
            })
        }),
{
    if plane.poller.take_error(record.user_ctx) is None && model::operation_of(record.user_ctx)
        == OperationType::Recv {
        plane.lemma_recv_taken(record.user_ctx);
    }
}

/// Two batches of completions do what one batch of both does: the events of the first, then those of
/// the second on what the first left; a failure ends both.
pub proof fn batches_are_routed_in_order(
    plane: PlaneView,
    earlier: Seq<CompletionRecord>,
    later: Seq<CompletionRecord>,
    recv_queue: bool,
    first: Seq<core::result::Result<Seq<u8>, ErrorView>>,
    second: Seq<core::result::Result<Seq<u8>, ErrorView>>,
)
    requires
        earlier.len() == first.len(),
        later.len() == second.len(),
    ensures
        ({
            let half = plane.route_all(earlier, recv_queue, first);
            let whole = plane.route_all(earlier + later, recv_queue, first + second);
            match half.outcome {
                Err(error) => whole == half,
                Ok(events) => {
                    let rest = half.plane.route_all(later, recv_queue, second);
                    &&& whole.plane == rest.plane
                    &&& match rest.outcome {
                        Err(error) => whole.outcome == Err::<Seq<EventView>, ErrorView>(error),
                        Ok(more) => whole.outcome == Ok::<Seq<EventView>, ErrorView>(events + more),
                    }
                },
            }
        }),
    decreases later.len(),
{
    let half = plane.route_all(earlier, recv_queue, first);
    if later.len() == 0 {
        assert(earlier + later =~= earlier);
        assert(first + second =~= first);
        if half.outcome is Ok {
            assert(half.outcome->Ok_0 + Seq::<EventView>::empty() =~= half.outcome->Ok_0);
        }
    } else {
        let shorter = later.drop_last();
        let fewer = second.drop_last();
        batches_are_routed_in_order(plane, earlier, shorter, recv_queue, first, fewer);
        assert((earlier + later).drop_last() =~= earlier + shorter);
        assert((earlier + later).last() == later.last());
        lemma_reads(plane, earlier + shorter, recv_queue, first + fewer, first + second);
        lemma_reads(half.plane, shorter, recv_queue, fewer, second);
        assert((first + second)[(earlier + later).len() - 1] == second[later.len() - 1]);
        if half.outcome is Ok {
            let so_far = half.plane.route_all(shorter, recv_queue, second);
            if so_far.outcome is Ok {
                let last = so_far.plane.route(later.last(), recv_queue, second[later.len() - 1]);
                if last.outcome is Ok {
                    assert(half.outcome->Ok_0 + so_far.outcome->Ok_0 + last.outcome->Ok_0
                        =~= half.outcome->Ok_0 + (so_far.outcome->Ok_0 + last.outcome->Ok_0));
                }
            }
        }
    }
}

proof fn lemma_reads(
    plane: PlaneView,
    records: Seq<CompletionRecord>,
    recv_queue: bool,
    few: Seq<core::result::Result<Seq<u8>, ErrorView>>,
    many: Seq<core::result::Result<Seq<u8>, ErrorView>>,
)
    requires
        records.len() <= few.len() <= many.len(),
        forall|i: int| 0 <= i < records.len() ==> #[trigger] few[i] == many[i],
    ensures
        plane.route_all(records, recv_queue, few) == plane.route_all(records, recv_queue, many),
    decreases records.len(),
{
    if records.len() > 0 {
        lemma_reads(plane, records.drop_last(), recv_queue, few, many);
        assert(few[records.len() - 1] == many[records.len() - 1]);
    }
}

/// A work request that was posted is outstanding under its slot with its sequence, and all others stay
/// as they were.
pub proof fn posted_requests_are_outstanding(
    poller: PollerView,
    user_ctx: u64,
    sequence: Option<u64>,
    signaled: bool,
)
    requires
        poller.track_error(user_ctx) is None,
    ensures
        ({
            let after = poller.after_track(user_ctx, sequence, signaled);
            let at = WrToken::of_user_ctx(user_ctx).slot.position() as int;
            &&& after.tracks(user_ctx)
            &&& after.entry(user_ctx).user_ctx == user_ctx
            &&& after.entry(user_ctx).sequence == sequence
            &&& after.entry(user_ctx).signaled == signaled
            &&& forall|i: int|
                0 <= i < poller.table.len() && i != at ==> #[trigger] after.table[i]
                    == poller.table[i]
            &&& forall|i: int|
                poller.table.len() <= i < after.table.len() && i != at
                    ==> #[trigger] after.table[i] is None
            &&& after.outstanding() == poller.outstanding() + 1
            &&& after.stats.max_outstanding_send >= poller.stats.max_outstanding_send
            &&& after.send_order.len() <= u64::MAX && WrToken::of_user_ctx(user_ctx).operation
                == OperationType::Send ==> after.stats.max_outstanding_send
                >= after.send_order.len() && (after.stats.max_outstanding_send
                == poller.stats.max_outstanding_send || after.stats.max_outstanding_send
                == after.send_order.len())
        }),
{
    WrToken::of_user_ctx(user_ctx).slot.lemma_position();
}

/// A work request that was posted is what its slot holds, whatever the slot held before.
pub proof fn posted_requests_are_outstanding_at(
    poller: PollerView,
    user_ctx: u64,
    sequence: Option<u64>,
    signaled: bool,
)
    ensures
        ({
            let after = poller.after_track(user_ctx, sequence, signaled);
            &&& after.tracks(user_ctx)
            &&& after.entry(user_ctx).sequence == sequence
            &&& after.entry(user_ctx).signaled == signaled
        }),
{
    WrToken::of_user_ctx(user_ctx).slot.lemma_position();
}

/// A work request can be posted exactly where its context can be read and its slot has none
/// outstanding.
pub proof fn requests_are_posted_exactly_when(poller: PollerView, user_ctx: u64)
    ensures
        poller.track_error(user_ctx) is None <==> {
            let at = WrToken::of_user_ctx(user_ctx).slot.position() as int;
            &&& WrToken::decode_error(user_ctx) is None
            &&& at >= poller.table.len() || poller.table[at] is None
        },
{
}

/// A wait for an event counts itself and its time, and disarms exactly the queues that became ready;
/// where none did, it counts a timeout and an empty poll.
pub proof fn waits_disarm_what_is_ready(
    poller: PollerView,
    elapsed: u64,
    ready: Option<JfcEventReady>,
)
    requires
        poller.stats.event_wait_count < u64::MAX,
        poller.stats.event_wait_ns + elapsed <= u64::MAX,
        poller.stats.event_timeout_count < u64::MAX,
        poller.stats.event_wakeup_count < u64::MAX,
        poller.stats.empty_polls < u64::MAX,
    ensures
        ({
            let after = poller.after_wait(elapsed, ready);
            let woken = ready is Some;
            &&& after.send_armed <==> poller.send_armed && !(woken && ready->0.send)
            &&& after.recv_armed <==> poller.recv_armed && !(woken && ready->0.recv)
            &&& after.stats.event_wait_count == poller.stats.event_wait_count + 1
            &&& after.stats.event_wait_ns == poller.stats.event_wait_ns + elapsed
            &&& after.stats.max_event_wait_ns >= elapsed
            &&& after.stats.max_event_wait_ns >= poller.stats.max_event_wait_ns
            &&& after.stats.max_event_wait_ns == elapsed || after.stats.max_event_wait_ns
                == poller.stats.max_event_wait_ns
            &&& after.stats.event_wakeup_count == poller.stats.event_wakeup_count + if woken {
                1int
            } else {
                0int
            }
            &&& after.stats.event_timeout_count == poller.stats.event_timeout_count + if woken {
                0int
            } else {
                1int
            }
            &&& after.stats.empty_polls == poller.stats.empty_polls + if woken {
                0int
            } else {
                1int
            }
            &&& after.table == poller.table
            &&& after.send_order == poller.send_order
            &&& after.receives == poller.receives
        }),
{
}

/// Polls are counted as they are: one call each, one empty poll of a queue where it gave nothing, the
/// completions that came, the longest run of empty polls, and the longest time between two polls.
pub proof fn polls_are_counted(
    poller: PollerView,
    now: u128,
    previous: u128,
    recv_queue: bool,
    count: nat,
)
    requires
        poller.stats.poll_calls < u64::MAX,
        poller.stats.send_jfc_poll_calls < u64::MAX,
        poller.stats.recv_jfc_poll_calls < u64::MAX,
        poller.stats.send_jfc_empty_polls < u64::MAX,
        poller.stats.recv_jfc_empty_polls < u64::MAX,
        poller.stats.nonempty_polls < u64::MAX,
        poller.stats.completion_batch_total + count <= u64::MAX,
        poller.empty_streak < u64::MAX,
        previous <= now,
        now - previous <= u64::MAX,
    ensures
        poller.after_begin(now).stats.poll_calls == poller.stats.poll_calls + 1,
        poller.after_begin(now).last_poll == Some(now),
        ({
            let after = poller.after_queue_poll(recv_queue, count);
            let empty: int = if count == 0 {
                1
            } else {
                0
            };
            &&& recv_queue ==> {
                &&& after.stats.recv_jfc_poll_calls == poller.stats.recv_jfc_poll_calls + 1
                &&& after.stats.recv_jfc_empty_polls == poller.stats.recv_jfc_empty_polls + empty
                &&& after.stats.send_jfc_poll_calls == poller.stats.send_jfc_poll_calls
                &&& after.stats.send_jfc_empty_polls == poller.stats.send_jfc_empty_polls
            }
            &&& !recv_queue ==> {
                &&& after.stats.send_jfc_poll_calls == poller.stats.send_jfc_poll_calls + 1
                &&& after.stats.send_jfc_empty_polls == poller.stats.send_jfc_empty_polls + empty
                &&& after.stats.recv_jfc_poll_calls == poller.stats.recv_jfc_poll_calls
                &&& after.stats.recv_jfc_empty_polls == poller.stats.recv_jfc_empty_polls
            }
        }),
        ({
            let after = poller.after_nonempty(count, Some(previous), now);
            &&& after.empty_streak == 0
            &&& after.stats.nonempty_polls == poller.stats.nonempty_polls + 1
            &&& after.stats.completion_batch_total == poller.stats.completion_batch_total + count
            &&& after.stats.max_completion_poll_gap_ns >= now - previous
            &&& after.stats.max_completion_poll_gap_ns >= poller.stats.max_completion_poll_gap_ns
            &&& after.stats.max_completion_poll_gap_ns == now - previous
                || after.stats.max_completion_poll_gap_ns
                == poller.stats.max_completion_poll_gap_ns
        }),
        ({
            let after = poller.after_empty();
            &&& after.empty_streak == poller.empty_streak + 1
            &&& after.stats.max_empty_streak >= after.empty_streak
            &&& after.stats.max_empty_streak >= poller.stats.max_empty_streak
            &&& after.stats.max_empty_streak == after.empty_streak || after.stats.max_empty_streak
                == poller.stats.max_empty_streak
        }),
{
}

/// Arming a queue arms it and leaves the other as it is, and a post counts as one call, however many
/// work requests it hands over, with the longest list kept.
pub proof fn arms_and_posts_are_counted(
    poller: PollerView,
    recv_queue: bool,
    operation: OperationType,
    count: u64,
)
    requires
        poller.stats.jfc_rearm_count < u64::MAX,
        poller.stats.send_post_calls < u64::MAX,
        poller.stats.recv_post_calls < u64::MAX,
    ensures
        ({
            let after = poller.after_arm(recv_queue);
            &&& recv_queue ==> after.recv_armed && after.send_armed == poller.send_armed
            &&& !recv_queue ==> after.send_armed && after.recv_armed == poller.recv_armed
            &&& after.stats.jfc_rearm_count == poller.stats.jfc_rearm_count + 1
        }),
        ({
            let after = poller.after_post_call(operation, count).stats;
            let before = poller.stats;
            &&& operation == OperationType::Send ==> {
                &&& after.send_post_calls == before.send_post_calls + 1
                &&& after.send_post_list_max >= count
                &&& after.send_post_list_max >= before.send_post_list_max
                &&& after.send_post_list_max == count || after.send_post_list_max
                    == before.send_post_list_max
                &&& after.recv_post_calls == before.recv_post_calls
                &&& after.recv_post_list_max == before.recv_post_list_max
            }
            &&& operation == OperationType::Recv ==> {
                &&& after.recv_post_calls == before.recv_post_calls + 1
                &&& after.recv_post_list_max >= count
                &&& after.recv_post_list_max >= before.recv_post_list_max
                &&& after.recv_post_list_max == count || after.recv_post_list_max
                    == before.recv_post_list_max
                &&& after.send_post_calls == before.send_post_calls
                &&& after.send_post_list_max == before.send_post_list_max
            }
            &&& after.send_post == before.send_post
            &&& after.recv_post == before.recv_post
        }),
{
}

/// An event that brought nothing is a spurious wakeup and an empty poll; one that brought completions
/// is a poll that gave them.
pub proof fn events_are_counted(poller: PollerView, count: nat, previous: Option<u128>, now: u128)
    requires
        poller.stats.spurious_wakeup_count < u64::MAX,
        poller.stats.empty_polls < u64::MAX,
        poller.stats.nonempty_polls < u64::MAX,
        poller.stats.completion_batch_total + count <= u64::MAX,
    ensures
        ({
            let after = poller.after_event(count, previous, now).stats;
            let before = poller.stats;
            &&& count == 0 ==> {
                &&& after.spurious_wakeup_count == before.spurious_wakeup_count + 1
                &&& after.empty_polls == before.empty_polls + 1
                &&& after.nonempty_polls == before.nonempty_polls
            }
            &&& count > 0 ==> {
                &&& after.spurious_wakeup_count == before.spurious_wakeup_count
                &&& after.empty_polls == before.empty_polls
                &&& after.nonempty_polls == before.nonempty_polls + 1
                &&& after.completion_batch_total == before.completion_batch_total + count
            }
        }),
{
}

/// A counter that has reached its limit stays there, and one that has not counts exactly.
pub proof fn counters_saturate(counter: u64, more: u64)
    ensures
        super::saturated(counter + more) >= counter,
        counter + more <= u64::MAX ==> super::saturated(counter + more) == counter + more,
        counter + more > u64::MAX ==> super::saturated(counter + more) == u64::MAX,
        super::larger(counter, more) >= counter,
        super::larger(counter, more) >= more,
        super::larger(counter, more) == counter || super::larger(counter, more) == more,
{
}

} // verus!
