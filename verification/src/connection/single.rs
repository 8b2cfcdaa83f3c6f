//! What one send, one receive and one batch do to a connection.

use vstd::prelude::*;

use super::posting::SendOutcome;
use super::ConnectionView;
use crate::buffer::{SlotId, SlotKind, SlotState};
use crate::provider::{FfiError, PostBatch};
use crate::wr::{OperationType, WrToken};

verus! {

/// A send that was posted holds the slot that was next to be handed out, is the last that is
/// outstanding, and counts towards the next completion unless it asks for one. One that was not posted
/// leaves the connection as it was.
pub proof fn sends_hold_their_slot(
    connection: ConnectionView,
    length: nat,
    prepared: bool,
    sequence: Option<u64>,
    force: bool,
    failure: FfiError,
)
    requires
        connection.wf(),
        connection.send_refusal(length, prepared) is None,
    ensures
        ({
            let pool = connection.plane.pool;
            let slot = SlotId::at(pool.free_tx.last());
            let at = pool.free_tx.last() as int;
            let (after, sent) = connection.send_one(length, sequence, force, SendOutcome::Posted);
            let planned = connection.send_descriptor(length, force);
            let token = WrToken::of_user_ctx(planned.user_ctx);
            &&& sent is Ok
            &&& planned.offset == pool.offset(at)
            &&& planned.length == length
            &&& token.slot == slot && token.operation == OperationType::Send
            &&& after.plane.pool.states == pool.states.update(at, SlotState::SendPosted)
            &&& after.plane.pool.free_tx == pool.free_tx.drop_last()
            &&& after.plane.pool.free_rx == pool.free_rx
            &&& after.plane.poller.send_order == connection.plane.poller.send_order.push(
                planned.user_ctx,
            )
            &&& after.plane.poller.entry(planned.user_ctx).sequence == sequence
            &&& after.plane.poller.entry(planned.user_ctx).signaled == planned.complete_enable
            &&& after.plane.poller.receives == connection.plane.poller.receives
            &&& after.since == if planned.complete_enable {
                0
            } else {
                connection.since + 1
            }
            &&& after.credit == connection.credit
            &&& after.frames == connection.frames
            &&& after.state == connection.state
        }),
        connection.send_one(length, sequence, force, SendOutcome::PostFailed(failure)).0
            == connection,
        connection.send_one(length, sequence, force, SendOutcome::PostFailed(failure)).1 is Err,
        connection.send_one(length, sequence, force, SendOutcome::WriteFailed(failure)).0
            == connection,
        connection.send_one(length, sequence, force, SendOutcome::WriteFailed(failure)).1 is Err,
{
    let pool = connection.plane.pool;
    let slot = SlotId::at(pool.free_tx.last());
    let at = pool.free_tx.last() as int;
    slot.lemma_position();
    pool.lemma_allocate(SlotKind::Tx);
    crate::buffer::laws::allocations_take_one_free_slot(pool, SlotKind::Tx);
    connection.lemma_user_ctx(OperationType::Send, slot);
    lemma_offset(connection, at);
    let taken = pool.after_allocate(SlotKind::Tx);
    let back = taken.after_release(slot);
    assert(back.states =~= pool.states);
    assert(back.free_tx =~= pool.free_tx);
    let planned = connection.send_descriptor(length, force);
    let slots = seq![slot];
    assert(slots.skip(1) =~= Seq::<SlotId>::empty());
    assert(slots.drop_last() =~= Seq::<SlotId>::empty());
    reveal_with_fuel(crate::buffer::PoolView::after_posts, 2);
    reveal_with_fuel(crate::buffer::PoolView::after_recycled_slots, 2);
    reveal_with_fuel(crate::completion::PollerView::after_tracks, 2);
    let after = connection.send_one(length, sequence, force, SendOutcome::Posted).0;
    assert(after.plane.pool.states =~= pool.states.update(at, SlotState::SendPosted));
    crate::completion::laws::posted_requests_are_outstanding_at(
        connection.plane.poller.after_post_call(OperationType::Send, 1),
        planned.user_ctx,
        sequence,
        planned.complete_enable,
    );
}

proof fn lemma_offset(connection: ConnectionView, at: int)
    requires
        connection.wf(),
        0 <= at < connection.plane.pool.states.len(),
    ensures
        0 <= connection.plane.pool.offset(at) <= u64::MAX,
{
    let pool = connection.plane.pool;
    let other: int = if at == 0 {
        1
    } else {
        0
    };
    pool.slots_lie_apart(at, other);
}

/// A receive that was posted holds the receive slot that was next to be handed out, for the whole slot,
/// and gives one credit. One that was not posted gives none, and its slot goes behind the others.
pub proof fn receives_hold_their_slot(
    connection: ConnectionView,
    sequence: Option<u64>,
    failure: FfiError,
)
    requires
        connection.wf(),
        connection.recv_refusal() is None,
        connection.credit < usize::MAX,
    ensures
        ({
            let pool = connection.plane.pool;
            let slot = SlotId::at(pool.free_rx[0]);
            let at = pool.free_rx[0] as int;
            let (after, posted) = connection.recv_one(sequence, Ok::<(), FfiError>(()));
            let planned = connection.recv_descriptors(seq![slot])[0];
            &&& posted is Ok
            &&& planned.offset == pool.offset(at)
            &&& planned.length == pool.config.slot_size
            &&& planned.complete_enable
            &&& after.plane.pool.states == pool.states.update(at, SlotState::PostedRecv)
            &&& after.plane.pool.free_rx == pool.free_rx.drop_first()
            &&& after.plane.pool.free_tx == pool.free_tx
            &&& after.plane.poller.receives == connection.plane.poller.receives + 1
            &&& after.plane.poller.send_order == connection.plane.poller.send_order
            &&& after.plane.poller.entry(planned.user_ctx).sequence == sequence
            &&& after.credit == connection.credit + 1
            &&& after.credit_started
            &&& after.since == connection.since
        }),
        ({
            let (after, posted) = connection.recv_one(sequence, Err::<(), FfiError>(failure));
            &&& posted is Err
            &&& after.credit == connection.credit
            &&& after.credit_started == connection.credit_started
            &&& after.plane.poller == connection.plane.poller
            &&& after.plane.pool.states == connection.plane.pool.states
            &&& after.plane.pool.free_rx == connection.plane.pool.free_rx.drop_first().push(
                connection.plane.pool.free_rx[0],
            )
        }),
{
    let pool = connection.plane.pool;
    let slot = SlotId::at(pool.free_rx[0]);
    let at = pool.free_rx[0] as int;
    slot.lemma_position();
    pool.lemma_allocate(SlotKind::Rx);
    super::posting::lemma_one_slot(pool, SlotKind::Rx);
    connection.lemma_user_ctx(OperationType::Recv, slot);
    lemma_offset(connection, at);
    let slots = seq![slot];
    assert(pool.allocations(SlotKind::Rx, 1) == slots);
    assert(slots.skip(1) =~= Seq::<SlotId>::empty());
    assert(slots.drop_last() =~= Seq::<SlotId>::empty());
    reveal_with_fuel(crate::buffer::PoolView::after_posts, 2);
    reveal_with_fuel(crate::buffer::PoolView::after_recycled_slots, 2);
    reveal_with_fuel(crate::completion::PollerView::after_tracks, 2);
    let after = connection.recv_one(sequence, Ok::<(), FfiError>(())).0;
    assert(after.plane.pool.states =~= pool.states.update(at, SlotState::PostedRecv));
    let back = connection.recv_one(sequence, Err::<(), FfiError>(failure)).0;
    assert(back.plane.pool.states =~= pool.states);
    let planned = connection.recv_descriptors(slots)[0];
    crate::completion::laws::posted_requests_are_outstanding_at(
        connection.plane.poller.after_post_call(OperationType::Recv, 1),
        planned.user_ctx,
        sequence,
        true,
    );
}

/// One receive is posted exactly on a bound or ready connection with a free slot, where the segment is
/// open and the slot's size and place can be written in a work request.
pub proof fn receives_are_posted_exactly_when(connection: ConnectionView)
    ensures
        connection.recv_refusal() is None <==> {
            let pool = connection.plane.pool;
            &&& connection.state is Bound || connection.state is Ready
            &&& pool.accepting
            &&& pool.open
            &&& pool.free_rx.len() > 0
            &&& pool.config.slot_size <= u32::MAX
            &&& SlotId::at(pool.free_rx[0]).position() <= u32::MAX
        },
{
}

/// One message is sent exactly on a ready connection that has posted a receive and has a free slot,
/// where the message fits in a slot and its bytes lie where the pool has them: in the shared range for
/// a prepared message, in a slot of its own for another.
pub proof fn messages_are_sent_exactly_when(
    connection: ConnectionView,
    length: nat,
    prepared: bool,
)
    requires
        connection.wf(),
    ensures
        connection.send_refusal(length, prepared) is None <==> {
            let pool = connection.plane.pool;
            &&& connection.state is Ready
            &&& connection.credit_started
            &&& pool.accepting
            &&& pool.open
            &&& pool.free_tx.len() > 0
            &&& 1 <= length <= pool.config.slot_size
            &&& length <= u32::MAX
            &&& prepared == pool.config.alias_tx_slots
            &&& pool.free_tx.last() <= u32::MAX
        },
{
    let pool = connection.plane.pool;
    if pool.free_tx.len() > 0 {
        let slot = SlotId::at(pool.free_tx.last());
        slot.lemma_position();
        pool.lemma_allocate(SlotKind::Tx);
    }
}

/// The sends since the last completion that was asked for are counted one by one: one more message of
/// a batch that the provider accepts counts one more, unless it asks for a completion, which starts
/// the count again. After a whole batch the count starts again.
pub proof fn batches_count_their_sends(
    connection: ConnectionView,
    layouts: Seq<(SlotId, u64, u32)>,
    first: u64,
    fewer: PostBatch,
    more: PostBatch,
)
    requires
        more.posted <= layouts.len(),
        fewer.posted + 1 == more.posted,
    ensures
        ({
            let before = connection.send_batch(layouts, first, Ok(fewer)).0.since;
            let after = connection.send_batch(layouts, first, Ok(more)).0.since;
            let planned = connection.send_descriptors(layouts);
            &&& after == if planned[fewer.posted as int].complete_enable {
                0
            } else {
                before + 1
            }
            &&& fewer.posted == 0 ==> before == connection.since
            &&& more.posted == layouts.len() ==> after == 0
        }),
{
}

} // verus!
