//! What holds of posting and polling on a connection as a whole.

use vstd::prelude::*;

use super::polling;
use super::ConnectionView;
use crate::completion::{EventView, PlaneView, PollerView};
use crate::provider::{CompletionRecord, FfiError, PostBatch, WrDescriptor};
use crate::buffer::{SlotId, SlotKind};
use crate::wr::{OperationType, WrToken};

verus! {

/// Every message of a planned batch is sent from its own place with its own length, under a context
/// that names its slot.
pub proof fn planned_batches_send_what_was_prepared(
    connection: ConnectionView,
    layouts: Seq<(SlotId, u64, u32)>,
    k: int,
)
    requires
        connection.wf(),
        0 <= k < layouts.len(),
        layouts[k].0.position() <= u32::MAX,
    ensures
        ({
            let planned = connection.send_descriptors(layouts);
            let token = WrToken::of_user_ctx(planned[k].user_ctx);
            &&& planned.len() == layouts.len()
            &&& planned[k].offset == layouts[k].1
            &&& planned[k].length == layouts[k].2
            &&& token.slot == layouts[k].0
            &&& token.operation == OperationType::Send
            &&& token.connection_id == connection.plane.poller.connection_id
            &&& token.generation == connection.plane.poller.generation
            &&& WrToken::decode_error(planned[k].user_ctx) is None
        }),
{
    connection.lemma_user_ctx(OperationType::Send, layouts[k].0);
}

/// The last message of a planned batch asks for a completion, whatever went before, so that the whole
/// batch is retired. On the way there, one of any `interval` messages in a row asks for one.
pub proof fn planned_batches_are_completed(
    connection: ConnectionView,
    layouts: Seq<(SlotId, u64, u32)>,
    start: int,
)
    requires
        connection.wf(),
        layouts.len() > 0,
        0 <= start,
        start + connection.interval <= layouts.len(),
    ensures
        connection.send_descriptors(layouts).last().complete_enable,
        exists|k: int|
            start <= k < start + connection.interval && (#[trigger] connection.send_descriptors(
                layouts,
            )[k]).complete_enable,
{
    let planned = connection.send_descriptors(layouts);
    let n = layouts.len();
    let interval = connection.interval as int;
    if forall|k: int|
        start <= k < start + interval ==> !(#[trigger] planned[k]).complete_enable {
        assert(!planned[start + interval - 1].complete_enable);
        lemma_run(connection, layouts, start, interval - 1);
        connection.lemma_since(n, start as nat);
    }
}

/// The last message of a planned batch asks for a completion, however short the batch is.
pub proof fn planned_batches_end_with_a_completion(
    connection: ConnectionView,
    layouts: Seq<(SlotId, u64, u32)>,
)
    requires
        layouts.len() > 0,
    ensures
        connection.send_descriptors(layouts).last().complete_enable,
{
}

proof fn lemma_run(
    connection: ConnectionView,
    layouts: Seq<(SlotId, u64, u32)>,
    start: int,
    count: int,
)
    requires
        connection.wf(),
        0 <= start,
        0 <= count,
        start + count < layouts.len(),
        forall|k: int|
            start <= k < start + count ==> !(#[trigger] connection.send_descriptors(
                layouts,
            )[k]).complete_enable,
    ensures
        connection.since_at(layouts.len(), (start + count) as nat) == connection.since_at(
            layouts.len(),
            start as nat,
        ) + count,
    decreases count,
{
    if count > 0 {
        lemma_run(connection, layouts, start, count - 1);
        assert(!connection.send_descriptors(layouts)[start + count - 1].complete_enable);
    }
}

/// Completions are moderated: after a message that asks for one, the next `interval` messages but the
/// last do not, unless the batch ends.
pub proof fn completions_are_moderated(
    connection: ConnectionView,
    layouts: Seq<(SlotId, u64, u32)>,
    first: int,
    second: int,
)
    requires
        connection.wf(),
        0 <= first < second < layouts.len() - 1,
        connection.send_descriptors(layouts)[first].complete_enable,
        connection.send_descriptors(layouts)[second].complete_enable,
    ensures
        second - first >= connection.interval,
{
    if second - first < connection.interval {
        lemma_quiet(connection, layouts, first, second);
    }
}

proof fn lemma_quiet(
    connection: ConnectionView,
    layouts: Seq<(SlotId, u64, u32)>,
    first: int,
    second: int,
)
    requires
        connection.wf(),
        0 <= first < second < layouts.len() - 1,
        second - first < connection.interval,
        connection.send_descriptors(layouts)[first].complete_enable,
    ensures
        !connection.send_descriptors(layouts)[second].complete_enable,
        connection.since_at(layouts.len(), second as nat) == second - first - 1,
    decreases second,
{
    if second > first + 1 {
        lemma_quiet(connection, layouts, first, second - 1);
    }
}

/// A message that is sent by itself asks for a completion exactly where it is forced to, or where
/// `interval` messages in a row, itself among them, would otherwise ask for none.
pub proof fn single_sends_are_moderated(connection: ConnectionView, length: nat, force: bool)
    requires
        connection.wf(),
        length <= u32::MAX,
    ensures
        ({
            let planned = connection.send_descriptor(length, force);
            &&& planned.length == length
            &&& planned.complete_enable <==> force || connection.since == connection.interval - 1
        }),
{
}

/// A receive is posted for a whole slot, at the slot's place, and always asks for a completion.
pub proof fn receives_take_whole_slots(connection: ConnectionView, slots: Seq<SlotId>, k: int)
    requires
        connection.wf(),
        0 <= k < slots.len(),
        slots[k].position() <= u32::MAX,
        connection.plane.pool.config.slot_size <= u32::MAX,
        connection.plane.pool.has(slots[k]),
    ensures
        ({
            let planned = connection.recv_descriptors(slots);
            let token = WrToken::of_user_ctx(planned[k].user_ctx);
            &&& planned.len() == slots.len()
            &&& planned[k].length == connection.plane.pool.config.slot_size
            &&& planned[k].complete_enable
            &&& token.slot == slots[k]
            &&& token.operation == OperationType::Recv
            &&& token.connection_id == connection.plane.poller.connection_id
            &&& token.generation == connection.plane.poller.generation
        }),
{
    connection.lemma_user_ctx(OperationType::Recv, slots[k]);
}

/// Work requests that were accepted are outstanding in the order in which they were posted, each with
/// the sequence that follows the one before, and nothing else about what is outstanding changes.
pub proof fn accepted_sends_are_outstanding_in_order(
    poller: PollerView,
    descriptors: Seq<WrDescriptor>,
    first: u64,
    count: nat,
)
    requires
        count <= descriptors.len(),
        forall|k: int|
            0 <= k < count ==> WrToken::of_user_ctx(
                (#[trigger] descriptors[k]).user_ctx,
            ).operation == OperationType::Send,
    ensures
        ({
            let after = poller.after_tracks(descriptors, Some(first), count);
            &&& after.send_order.len() == poller.send_order.len() + count
            &&& forall|k: int|
                0 <= k < poller.send_order.len() ==> #[trigger] after.send_order[k]
                    == poller.send_order[k]
            &&& forall|k: int|
                0 <= k < count ==> #[trigger] after.send_order[poller.send_order.len() + k]
                    == descriptors[k].user_ctx
            &&& after.receives == poller.receives
            &&& after.retired == poller.retired
            &&& poller.stats.send_post + count <= u64::MAX ==> after.stats.send_post
                == poller.stats.send_post + count
            &&& after.stats.recv_post == poller.stats.recv_post
            &&& after.stats.send_cqe == poller.stats.send_cqe
            &&& after.stats.send_retired == poller.stats.send_retired
        }),
    decreases count,
{
    if count > 0 {
        accepted_sends_are_outstanding_in_order(poller, descriptors, first, (count - 1) as nat);
    }
}

/// Receives that were accepted are counted, and outstanding sends stay as they are.
pub proof fn accepted_receives_are_counted(
    poller: PollerView,
    descriptors: Seq<WrDescriptor>,
    first: Option<u64>,
    count: nat,
)
    requires
        count <= descriptors.len(),
        forall|k: int|
            0 <= k < count ==> WrToken::of_user_ctx(
                (#[trigger] descriptors[k]).user_ctx,
            ).operation == OperationType::Recv,
    ensures
        ({
            let after = poller.after_tracks(descriptors, first, count);
            &&& after.receives == poller.receives + count
            &&& after.send_order == poller.send_order
            &&& after.retired == poller.retired
            &&& poller.stats.recv_post + count <= u64::MAX ==> after.stats.recv_post
                == poller.stats.recv_post + count
            &&& after.stats.send_post == poller.stats.send_post
            &&& after.stats.recv_cqe == poller.stats.recv_cqe
        }),
    decreases count,
{
    if count > 0 {
        accepted_receives_are_counted(poller, descriptors, first, (count - 1) as nat);
    }
}

/// Each accepted work request is kept under its slot with its own sequence and with whether it asked
/// for a completion.
pub proof fn accepted_requests_keep_their_sequence(
    plane: PlaneView,
    operation: OperationType,
    slots: Seq<SlotId>,
    descriptors: Seq<WrDescriptor>,
    first: u64,
    count: nat,
    k: int,
)
    requires
        PlaneView::on_slots(descriptors, operation, slots),
        slots.no_duplicates(),
        0 <= k < count <= slots.len(),
        first + count <= u64::MAX,
    ensures
        ({
            let after = plane.poller.after_tracks(descriptors, Some(first), count);
            let slot = slots[k].position() as int;
            &&& slot < after.table.len()
            &&& after.table[slot] matches Some(wr)
            &&& wr.user_ctx == descriptors[k].user_ctx
            &&& wr.sequence == Some((first + k) as u64)
            &&& wr.signaled == descriptors[k].complete_enable
        }),
    decreases count,
{
    let last = count - 1;
    assert(WrToken::of_user_ctx(descriptors[last].user_ctx).slot == slots[last]);
    assert(WrToken::of_user_ctx(descriptors[k].user_ctx).slot == slots[k]);
    if k < last {
        accepted_requests_keep_their_sequence(
            plane,
            operation,
            slots,
            descriptors,
            first,
            last as nat,
            k,
        );
        slots[k].lemma_position();
        slots[last].lemma_position();
        assert(slots[k] != slots[last]);
    }
}

/// A batch of sends gives the number that the provider accepted exactly where it accepted all of them
/// and reported success.
pub proof fn batches_succeed_only_whole(
    connection: ConnectionView,
    layouts: Seq<(SlotId, u64, u32)>,
    first: u64,
    count: nat,
    answer: core::result::Result<PostBatch, FfiError>,
)
    ensures
        ({
            let sent = connection.send_batch(layouts, first, answer);
            let received = connection.recv_batch(first, count, answer);
            &&& sent.1 is Ok <==> (answer matches Ok(batch) && batch.status == 0 && batch.posted
                == layouts.len())
            &&& received.1 is Ok <==> (answer matches Ok(batch) && batch.status == 0
                && batch.posted == count)
            &&& sent.1 matches Ok(posted) ==> posted == layouts.len()
            &&& received.1 matches Ok(posted) ==> posted == count
            &&& sent.0.credit == connection.credit
            &&& sent.0.frames == connection.frames
            &&& sent.0.state == connection.state
            &&& received.0.frames == connection.frames
            &&& received.0.state == connection.state
            &&& received.0.since == connection.since
            &&& answer matches Ok(batch) ==> connection.credit + batch.posted <= usize::MAX
                ==> received.0.credit == connection.credit + batch.posted
            &&& answer is Err ==> received.0.credit == connection.credit
                && received.0.credit_started == connection.credit_started
            &&& answer matches Ok(batch) ==> (received.0.credit_started
                <==> connection.credit_started || batch.posted > 0)
        }),
{
}

/// A batch of sends goes out exactly on a ready connection with an open segment, where its sequences
/// and its slots can be numbered.
pub proof fn send_batches_are_planned_exactly_when_ready(
    connection: ConnectionView,
    layouts: Seq<(SlotId, u64, u32)>,
    first: u64,
)
    ensures
        connection.send_batch_refusal(layouts, first) is None <==> {
            &&& connection.state is Ready
            &&& first + layouts.len() <= u64::MAX + 1
            &&& connection.plane.pool.open
            &&& forall|k: int|
                0 <= k < layouts.len() ==> (#[trigger] layouts[k]).0.position() <= u32::MAX
        },
{
    let slots = crate::buffer::pool::batch_slots(layouts);
    assert forall|k: int| 0 <= k < layouts.len() implies slots[k] == (#[trigger] layouts[k]).0 by {}
    if ConnectionView::unencodable(slots) {
        let k = choose|k: int| 0 <= k < slots.len() && (#[trigger] slots[k]).position() > u32::MAX;
        assert(layouts[k].0.position() > u32::MAX);
    } else {
        assert forall|k: int| 0 <= k < layouts.len() implies (
        #[trigger] layouts[k]).0.position() <= u32::MAX by {
            assert(slots[k].position() <= u32::MAX);
        }
    }
}

/// Receives are posted exactly on a bound or ready connection that has as many free slots as asked
/// for, whose sizes and places can be written in a work request.
pub proof fn receive_batches_are_planned_exactly_when_bound(
    connection: ConnectionView,
    first: u64,
    count: nat,
)
    requires
        count > 0,
    ensures
        connection.recv_batch_refusal(first, count) is None <==> {
            let pool = connection.plane.pool;
            &&& connection.state is Bound || connection.state is Ready
            &&& first + count <= u64::MAX + 1
            &&& pool.accepting
            &&& pool.open
            &&& pool.config.slot_size <= u32::MAX
            &&& count <= pool.free_rx.len()
            &&& forall|k: int|
                0 <= k < count ==> (#[trigger] pool.allocations(SlotKind::Rx, count)[k]).position()
                    <= u32::MAX
        },
{
    let slots = connection.plane.pool.allocations(SlotKind::Rx, count);
    if ConnectionView::unencodable(slots) {
        let k = choose|k: int| 0 <= k < slots.len() && (#[trigger] slots[k]).position() > u32::MAX;
        assert(slots[k].position() > u32::MAX);
    }
}

/// A message is sent exactly on a ready connection after the first receive, from a free slot.
pub proof fn sends_need_a_ready_connection_and_a_receive(
    connection: ConnectionView,
    length: nat,
    prepared: bool,
)
    requires
        connection.send_refusal(length, prepared) is None,
    ensures
        connection.state is Ready,
        connection.credit_started,
        connection.plane.pool.accepting,
        connection.plane.pool.open,
        connection.plane.pool.free_tx.len() > 0,
        1 <= length <= connection.plane.pool.config.slot_size,
        length <= u32::MAX,
        prepared == connection.plane.pool.config.alias_tx_slots,
{
}

/// The messages of two polls in a row are those of the first, then those of the second; a receive is
/// one message with its bytes, and a send is none.
pub proof fn messages_are_kept_once_and_in_order(
    earlier: Seq<EventView>,
    later: Seq<EventView>,
    slot: SlotId,
    bytes: Seq<u8>,
)
    ensures
        polling::messages(earlier + later) == polling::messages(earlier) + polling::messages(later),
        polling::messages(seq![EventView::RecvCompleted { slot, bytes }]) == seq![bytes],
        polling::messages(seq![EventView::SendCompleted { slot }]) == Seq::<Seq<u8>>::empty(),
        polling::messages(Seq::<EventView>::empty()) == Seq::<Seq<u8>>::empty(),
        polling::received(earlier) == polling::messages(earlier).len(),
    decreases later.len(),
{
    lemma_messages_counted(earlier);
    let received = seq![EventView::RecvCompleted { slot, bytes }];
    let sent = seq![EventView::SendCompleted { slot }];
    assert(received.drop_last() =~= Seq::<EventView>::empty());
    assert(sent.drop_last() =~= Seq::<EventView>::empty());
    reveal_with_fuel(polling::messages, 2);
    assert(polling::messages(received) =~= seq![bytes]);
    if later.len() == 0 {
        assert(earlier + later =~= earlier);
        assert(polling::messages(earlier) + polling::messages(later) =~= polling::messages(earlier));
    } else {
        messages_are_kept_once_and_in_order(earlier, later.drop_last(), slot, bytes);
        assert((earlier + later).drop_last() =~= earlier + later.drop_last());
        assert((earlier + later).last() == later.last());
        assert(polling::messages(earlier + later) =~= polling::messages(earlier)
            + polling::messages(later));
    }
}

proof fn lemma_messages_counted(events: Seq<EventView>)
    ensures
        polling::received(events) == polling::messages(events).len(),
    decreases events.len(),
{
    if events.len() > 0 {
        lemma_messages_counted(events.drop_last());
    }
}

/// The message that is kept for a receive completion holds its bytes: it is the one after the messages
/// of all earlier receive completions.
pub proof fn every_receive_is_a_message(events: Seq<EventView>, i: int)
    requires
        0 <= i < events.len(),
        events[i] is RecvCompleted,
    ensures
        polling::received(events.take(i)) < polling::messages(events).len(),
        polling::messages(events)[polling::received(events.take(i)) as int]
            == events[i]->RecvCompleted_bytes,
{
    let bytes = events[i]->RecvCompleted_bytes;
    let slot = events[i]->RecvCompleted_slot;
    let before = events.take(i);
    let rest = events.skip(i + 1);
    messages_are_kept_once_and_in_order(before, seq![events[i]], slot, bytes);
    messages_are_kept_once_and_in_order(before + seq![events[i]], rest, slot, bytes);
    assert(events =~= before + seq![events[i]] + rest);
    assert(events[i] == EventView::RecvCompleted { slot, bytes });
}

/// A poll takes one receive credit per completed receive, as far as there is credit, and a batch of
/// posted receives gives one each, so that posting and completing the same number changes nothing.
pub proof fn credit_follows_receives(credit: nat, count: nat)
    requires
        credit + count <= usize::MAX,
    ensures
        super::posting::credited(credit, count) == credit + count,
        polling::uncredited(super::posting::credited(credit, count), count) == credit,
        polling::uncredited(credit, credit + count) == 0,
        polling::uncredited(credit, 0) == credit,
{
}

/// A leased poll hands over one completed receive per completion record, in order, each with the
/// number of bytes that its record reports and the slot that its context names.
pub proof fn leased_receives_report_what_arrived(
    plane: PlaneView,
    records: Seq<CompletionRecord>,
    k: int,
)
    requires
        polling::leased_all(plane, records).1 is Ok,
        0 <= k < records.len(),
    ensures
        ({
            let completed = polling::leased_all(plane, records).1->Ok_0;
            &&& completed.len() == records.len()
            &&& completed[k].length == records[k].completion_len
            &&& completed[k].slot == WrToken::of_user_ctx(records[k].user_ctx).slot
            &&& records[k].status == 0
            &&& records[k].opcode == 0
            &&& records[k].is_recv
            &&& records[k].completion_len > 0
        }),
    decreases records.len(),
{
    lemma_leased_count(plane, records);
    if k < records.len() - 1 {
        leased_receives_report_what_arrived(plane, records.drop_last(), k);
        assert(records.drop_last()[k] == records[k]);
    }
}

proof fn lemma_leased_count(plane: PlaneView, records: Seq<CompletionRecord>)
    requires
        polling::leased_all(plane, records).1 is Ok,
    ensures
        polling::leased_all(plane, records).1->Ok_0.len() == records.len(),
    decreases records.len(),
{
    if records.len() > 0 {
        lemma_leased_count(plane, records.drop_last());
    }
}

/// A poll for receives that stay in their slots gives what its records report, takes the credit of as
/// many receives as it gives, and keeps the connection ready; where it fails, the connection fails.
pub proof fn leased_polls_take_their_credit(
    connection: ConnectionView,
    now: u128,
    records: Seq<CompletionRecord>,
)
    requires
        connection.state is Ready,
    ensures
        ({
            let (after, outcome) = connection.leased_poll(now, Ok(records));
            &&& after.frames == connection.frames
            &&& after.since == connection.since
            &&& match outcome {
                Ok(completed) => {
                    &&& completed.len() == records.len()
                    &&& after.state is Ready
                    &&& after.credit == if connection.credit >= records.len() {
                        connection.credit - records.len()
                    } else {
                        0
                    }
                },
                Err(_) => after.state is Failed && after.credit == connection.credit,
            }
        }),
{
    let (after, outcome) = connection.leased_poll(now, Ok(records));
    if outcome is Ok {
        let counted = PlaneView {
            poller: connection.plane.poller.after_begin(now).after_queue_poll(true, records.len()),
            ..connection.plane
        };
        lemma_leased_count(counted, records);
    }
}

/// A new connection has nothing outstanding, no credit and no messages, and asks for a completion of
/// every message that it sends.
pub proof fn new_connections_are_idle(
    pool: crate::buffer::PoolView,
    capability: crate::runtime::CapabilityWire,
    connection_id: u16,
    token: u32,
)
    ensures
        ({
            let connection = ConnectionView::fresh(pool, capability, connection_id, token);
            &&& connection.state is JettyCreated
            &&& connection.plane.poller.outstanding() == 0
            &&& connection.plane.poller.connection_id == connection_id
            &&& connection.plane.poller.generation == 1
            &&& connection.plane.pool == pool
            &&& connection.capability == capability
            &&& connection.credit == 0
            &&& !connection.credit_started
            &&& connection.frames.len() == 0
            &&& connection.interval == 1
            &&& connection.jetty.token == token
            &&& !connection.jetty.imported
            &&& !connection.jetty.bound
            &&& connection.plane.poller.stats.send_post == 0
            &&& connection.plane.poller.stats.recv_post == 0
        }),
{
}

/// A failure fails a connection that is not closed, and changes nothing else.
pub proof fn failures_fail_the_connection(connection: ConnectionView)
    ensures
        connection.state is Closed ==> connection.failed() == connection,
        !(connection.state is Closed) ==> connection.failed().state is Failed,
        connection.failed().plane == connection.plane,
        connection.failed().credit == connection.credit,
        connection.failed().frames == connection.frames,
        connection.failed().jetty == connection.jetty,
{
}

/// A remote descriptor is imported exactly before the connection is bound, where its transport is the
/// local one.
pub proof fn descriptors_are_imported_exactly_when(connection: ConnectionView, transport_type: u32)
    ensures
        connection.import_error(transport_type) is None <==> {
            &&& connection.state is JettyCreated || connection.state is DescriptorExchanged
            &&& connection.capability.transport_type == transport_type
        },
{
}

/// A batch is prepared exactly on a ready connection that has posted a receive.
pub proof fn batches_need_a_ready_connection_and_a_receive(connection: ConnectionView)
    ensures
        connection.prepare_error() is None <==> connection.state is Ready && connection.credit_started,
{
}

/// A poll of a queue that gave nothing, or failed, leaves what is outstanding and all slots as they are.
pub proof fn empty_polls_change_nothing(
    connection: ConnectionView,
    recv_queue: bool,
    batch: Vec<(CompletionRecord, crate::error::Result<Vec<u8>>)>,
    failure: FfiError,
)
    requires
        batch@.len() == 0,
    ensures
        ({
            let (after, events) = connection.queue_routed(recv_queue, Err(failure));
            &&& events is Err
            &&& after.pool == connection.plane.pool
            &&& after.poller.table == connection.plane.poller.table
            &&& after.poller.send_order == connection.plane.poller.send_order
            &&& after.poller.receives == connection.plane.poller.receives
        }),
        ({
            let (after, events) = connection.queue_routed(recv_queue, Ok(batch));
            &&& events matches Ok(events) && events.len() == 0
            &&& after.pool == connection.plane.pool
            &&& after.poller.table == connection.plane.poller.table
            &&& after.poller.send_order == connection.plane.poller.send_order
        }),
{
}

/// Failures of a drain are kept in order, except that a completion that failed is what a drain is for.
pub proof fn drains_keep_their_failures(
    failures: Seq<Seq<char>>,
    events: Vec<crate::completion::CompletionEvent>,
    error: crate::error::Error,
)
    ensures
        super::closing::drain_noted(failures, Ok(events)) == failures,
        error@ is Completion ==> super::closing::drain_noted(failures, Err(error)) == failures,
        !(error@ is Completion) ==> super::closing::drain_noted(failures, Err(error))
            == failures + seq![error@.text()],
{
    assert(failures.push(error@.text()) =~= failures + seq![error@.text()]);
}

/// Completed receives go to the pool in order, each with its slot, its sequence and its length.
pub proof fn completed_receives_go_to_the_pool_in_order(
    completed: Seq<crate::completion::CompletedRecv>,
    k: int,
)
    requires
        0 <= k < completed.len(),
    ensures
        polling::completed_records(completed).len() == completed.len(),
        polling::completed_records(completed)[k].0 == completed[k].slot,
        polling::completed_records(completed)[k].1 == completed[k].sequence,
        polling::completed_records(completed)[k].2 == completed[k].length,
{
}

/// Messages are handed over in the order in which they were kept, each once, and only while no send is
/// outstanding: a message that is kept later changes nothing about the one that is handed over next, and
/// comes after all that are still kept.
pub proof fn messages_are_handed_over_in_order(
    before: ConnectionView,
    after: ConnectionView,
    frame: Seq<u8>,
    kept: ConnectionView,
    later: ConnectionView,
    other: Seq<u8>,
    events: Seq<EventView>,
)
    requires
        after.handed_over(before, frame),
        kept == (ConnectionView { frames: before.frames + polling::messages(events), ..before }),
        later.handed_over(kept, other),
    ensures
        frame == before.frames[0],
        after.frames.len() + 1 == before.frames.len(),
        after.frames == before.frames.skip(1),
        before.plane.poller.send_order.len() == 0,
        other == frame,
        later.frames == after.frames + polling::messages(events),
{
    assert(before.frames[0] == frame);
    assert(kept.frames[0] == other);
    assert(after.frames =~= before.frames.skip(1));
    assert(later.frames =~= kept.frames.skip(1));
    assert(later.frames =~= after.frames + polling::messages(events));
}

} // verus!
