//! The poller: it tracks posted work requests and routes completions to them.

use std::collections::VecDeque;

use vstd::prelude::*;

use super::model;
use super::model::{EventView, OutstandingWr, PlaneView, PollerView};
use super::{
    completion_error, max_u64, should_wait_for_event, validate_completion_status, CompletedRecv,
    CompletionDiagnostic, CompletionEvent, CompletionStats, PendingWrSnapshot,
};
use crate::buffer::{SlotId, SlotKind, SlotState, UrmaBufferPool};
use crate::error::{invalid, protocol, Error, ErrorView, Result};
use crate::provider::{map_ffi_error, CompletionRecord, FfiError, JfcEventReady};
use crate::text::with_number;
use crate::wr::{OperationType, WrToken};

verus! {

/// Outstanding work requests of one connection. Its counters stop at their largest value.
pub struct CompletionPoller {
    connection_id: u16,
    generation: u8,
    batch: usize,
    outstanding: Vec<Option<OutstandingWr>>,
    send_order: VecDeque<u64>,
    outstanding_recv: usize,
    last_completed_send_sequence: Option<u64>,
    last_completed_recv_sequence: Option<u64>,
    empty_streak: u64,
    last_poll_started: Option<u128>,
    send_armed: bool,
    recv_armed: bool,
    stats: CompletionStats,
    retired: Vec<u64>,
}

impl View for CompletionPoller {
    type V = PollerView;

    closed spec fn view(&self) -> PollerView {
        PollerView {
            connection_id: self.connection_id,
            generation: self.generation,
            table: self.outstanding@,
            send_order: self.send_order@,
            receives: self.outstanding_recv as nat,
            last_send: self.last_completed_send_sequence,
            last_recv: self.last_completed_recv_sequence,
            empty_streak: self.empty_streak,
            last_poll: self.last_poll_started,
            send_armed: self.send_armed,
            recv_armed: self.recv_armed,
            stats: self.stats,
            retired: self.retired@,
        }
    }
}

/// A poller and the pool that it completes work requests on.
pub open spec fn plane(poller: CompletionPoller, pool: UrmaBufferPool) -> PlaneView {
    PlaneView { poller: poller@, pool: pool@ }
}

/// Whether a poller and its pool meet their common invariant.
pub open spec fn plane_wf(poller: CompletionPoller, pool: UrmaBufferPool) -> bool {
    pool.wf() && plane(poller, pool).wf()
}

/// The events as views.
pub open spec fn event_views(events: Seq<CompletionEvent>) -> Seq<EventView> {
    events.map_values(|event: CompletionEvent| event@)
}

/// What a decision after a poll asks for.
#[derive(Clone, Copy, Debug, Eq, PartialEq, Structural)]
pub enum AfterPoll {
    /// Return what was polled.
    Return,
    /// Arm the queues, and poll again where one was newly armed.
    Rearm,
    /// Wait for an event.
    Wait,
}

impl CompletionPoller {
    /// How many completions one poll takes.
    pub closed spec fn batch_size(self) -> nat {
        self.batch as nat
    }

    /// Whether the poller has the identity and the batch size of an earlier one.
    pub open spec fn keeps(self, earlier: Self) -> bool {
        &&& self.batch_size() == earlier.batch_size()
        &&& self@.connection_id == earlier@.connection_id
        &&& self@.generation == earlier@.generation
    }

    /// A poller of nothing.
    pub fn new(connection_id: u16, generation: u8, batch: usize) -> (poller: Result<Self>)
        ensures
            match poller {
                Ok(poller) => {
                    &&& 1 <= batch <= 16
                    &&& poller.batch_size() == batch
                    &&& poller@ == PollerView::idle(connection_id, generation)
                    &&& poller@.wf()
                },
                Err(error) => {
                    &&& !(1 <= batch <= 16)
                    &&& error@ == ErrorView::InvalidConfiguration(
                        "completion poll batch must be in 1..=16"@,
                    )
                },
            },
    {
        if batch == 0 || batch > 16 {
            return Err(invalid("completion poll batch must be in 1..=16"));
        }
        Ok(Self::idle(connection_id, generation, batch))
    }

    /// A poller of nothing that takes `batch` completions at a time.
    pub(crate) fn idle(connection_id: u16, generation: u8, batch: usize) -> (poller: Self)
        ensures
            poller.batch_size() == batch,
            poller@ == PollerView::idle(connection_id, generation),
            poller@.wf(),
    {
        let poller = CompletionPoller {
            connection_id,
            generation,
            batch,
            outstanding: Vec::new(),
            send_order: VecDeque::new(),
            outstanding_recv: 0,
            last_completed_send_sequence: None,
            last_completed_recv_sequence: None,
            empty_streak: 0,
            last_poll_started: None,
            send_armed: false,
            recv_armed: false,
            stats: CompletionStats::default(),
            retired: Vec::new(),
        };
        assert(poller@.table =~= Seq::empty());
        assert(poller@.send_order =~= Seq::empty());
        assert(poller@.retired =~= Seq::empty());
        poller
    }

    /// How many completions one poll takes.
    pub fn batch(&self) -> (batch: usize)
        ensures
            batch == self.batch_size(),
    {
        self.batch
    }

    /// Remembers a posted work request until its completion is routed.
    pub fn track(&mut self, user_ctx: u64, sequence: Option<u64>, signaled: bool) -> (noted:
        Result<()>)
        requires
            old(self)@.wf(),
        ensures
            final(self)@.wf(),
            final(self).keeps(*old(self)),
            match noted {
                Ok(()) => {
                    &&& old(self)@.track_error(user_ctx) is None
                    &&& final(self)@ == old(self)@.after_track(user_ctx, sequence, signaled)
                },
                Err(error) => {
                    &&& old(self)@.track_error(user_ctx) == Some(error@)
                    &&& final(self)@ == old(self)@
                },
            },
    {
        let ghost before = self@;
        let token = match WrToken::decode(user_ctx) {
            Ok(token) => token,
            Err(error) => {
                return Err(error);
            },
        };
        let slot: usize = token.slot.index();
        if slot < self.outstanding.len() && self.outstanding[slot].is_some() {
            return Err(protocol("duplicate outstanding user_ctx"));
        }
        proof {
            before.lemma_track(user_ctx, sequence, signaled);
            let after = before.after_track(user_ctx, sequence, signaled);
            model::lemma_counts_bounded(after.table);
        }
        while self.outstanding.len() <= slot
            invariant
                self.outstanding@.len() <= slot + 1 || self.outstanding@ == before.table,
                self.outstanding@.len() >= before.table.len(),
                forall|i: int|
                    0 <= i < self.outstanding@.len() ==> #[trigger] self.outstanding@[i] == (if i
                        < before.table.len() {
                        before.table[i]
                    } else {
                        None
                    }),
                self@ == (PollerView { table: self.outstanding@, ..before }),
                self.keeps(*old(self)),
            decreases slot + 1 - self.outstanding@.len(),
        {
            self.outstanding.push(None);
        }
        assert(self.outstanding@ =~= model::grown(before.table, slot as int));
        self.outstanding.set(slot, Some(OutstandingWr { user_ctx, sequence, signaled }));
        match token.operation {
            OperationType::Send => {
                self.send_order.push_back(user_ctx);
                self.stats.send_post = self.stats.send_post.saturating_add(1);
                self.stats.max_outstanding_send = max_u64(
                    self.stats.max_outstanding_send,
                    self.send_order.len() as u64,
                );
            },
            OperationType::Recv => {
                assert(self.outstanding_recv < self.outstanding@.len());
                self.stats.recv_post = self.stats.recv_post.saturating_add(1);
                self.outstanding_recv = self.outstanding_recv + 1;
            },
        }
        assert(self@ =~= before.after_track(user_ctx, sequence, signaled));
        Ok(())
    }

    fn count_error(&mut self)
        ensures
            final(self)@ == old(self)@.with_cqe_error(),
            final(self).keeps(*old(self)),
    {
        self.stats.cqe_error = self.stats.cqe_error.saturating_add(1);
        assert(self@ =~= old(self)@.with_cqe_error());
    }

    fn count_recv(&mut self, sequence: Option<u64>)
        ensures
            final(self)@ == old(self)@.after_recv(sequence),
            final(self).keeps(*old(self)),
    {
        self.stats.recv_cqe = self.stats.recv_cqe.saturating_add(1);
        if sequence.is_some() {
            self.last_completed_recv_sequence = sequence;
        }
        assert(self@ =~= old(self)@.after_recv(sequence));
    }

    fn outstanding_for(&self, user_ctx: u64) -> (found: Option<OutstandingWr>)
        requires
            WrToken::decode_error(user_ctx) is None,
        ensures
            match found {
                Some(wr) => self@.tracks(user_ctx) && wr == self@.entry(user_ctx),
                None => !self@.tracks(user_ctx),
            },
    {
        match WrToken::decode(user_ctx) {
            Ok(token) => {
                let slot: usize = token.slot.index();
                if slot < self.outstanding.len() {
                    if let Some(wr) = self.outstanding[slot] {
                        if wr.user_ctx == user_ctx {
                            return Some(wr);
                        }
                    }
                }
                None
            },
            Err(_) => None,
        }
    }

    /// Takes an outstanding receive out of the table.
    fn take_recv(&mut self, user_ctx: u64) -> (taken: Result<OutstandingWr>)
        requires
            old(self)@.wf(),
            WrToken::decode_error(user_ctx) is None,
            model::operation_of(user_ctx) == OperationType::Recv,
        ensures
            final(self)@.wf(),
            final(self).keeps(*old(self)),
            match taken {
                Ok(wr) => {
                    &&& old(self)@.take_error(user_ctx) is None
                    &&& wr == old(self)@.entry(user_ctx)
                    &&& final(self)@ == old(self)@.after_take_recv(user_ctx)
                },
                Err(error) => {
                    &&& old(self)@.take_error(user_ctx) == Some(error@)
                    &&& final(self)@ == old(self)@
                },
            },
    {
        let ghost before = self@;
        let token = match WrToken::decode(user_ctx) {
            Ok(token) => token,
            Err(error) => {
                return Err(error);
            },
        };
        let slot: usize = token.slot.index();
        if slot >= self.outstanding.len() {
            return Err(protocol("CQE slot is outside outstanding table"));
        }
        let wr = match self.outstanding_for(user_ctx) {
            Some(wr) => wr,
            None => {
                return Err(protocol("CQE has no outstanding WR"));
            },
        };
        proof {
            before.lemma_take_recv(user_ctx);
        }
        self.outstanding.set(slot, None);
        self.outstanding_recv = self.outstanding_recv - 1;
        self.retired.push(user_ctx);
        assert(self@ =~= before.after_take_recv(user_ctx));
        Ok(wr)
    }

    /// The sequence of an outstanding receive that a completion record names.
    pub fn recv_sequence(&self, record: &CompletionRecord) -> (sequence: Option<u64>)
        ensures
            sequence == if record.user_ctx_valid && WrToken::decode_error(record.user_ctx) is None
                && self@.tracks(record.user_ctx) {
                self@.entry(record.user_ctx).sequence
            } else {
                None
            },
    {
        if !record.user_ctx_valid {
            return None;
        }
        match WrToken::decode(record.user_ctx) {
            Ok(_) => match self.outstanding_for(record.user_ctx) {
                Some(wr) => wr.sequence,
                None => None,
            },
            Err(_) => None,
        }
    }

    /// Frees the slot of a receive that failed, and counts the failure.
    fn fail_recv(&mut self, user_ctx: u64, pool: &mut UrmaBufferPool)
        requires
            plane_wf(*old(self), *old(pool)),
            WrToken::decode_error(user_ctx) is None,
            model::position_of(user_ctx) >= old(self)@.table.len()
                || old(self)@.table[model::position_of(user_ctx)] is None,
            old(pool)@.has(WrToken::of_user_ctx(user_ctx).slot),
            old(pool)@.state(WrToken::of_user_ctx(user_ctx).slot) == SlotState::PostedRecv,
        ensures
            plane_wf(*final(self), *final(pool)),
            final(self).keeps(*old(self)),
            final(self)@ == old(self)@.with_cqe_error(),
            final(pool)@ == old(pool)@.after_release(WrToken::of_user_ctx(user_ctx).slot),
    {
        let ghost before = plane(*self, *pool);
        self.count_error();
        let token = match WrToken::decode(user_ctx) {
            Ok(token) => token,
            Err(_) => {
                return;
            },
        };
        let completed = pool.complete_error(token.slot, OperationType::Recv);
        assert(completed is Ok);
        let released = pool.release(token.slot);
        assert(released is Ok);
        proof {
            assert(pool@ =~= before.pool.after_release(token.slot));
            before.lemma_pool_change(pool@, token.slot.position() as int);
        }
    }

    /// Routes one completion of the send or the receive queue. `read` holds what reading the bytes
    /// of a receive gave, at [`UrmaBufferPool::recv_completion_layout`].
    pub fn route(
        &mut self,
        record: CompletionRecord,
        recv_queue: bool,
        read: Result<Vec<u8>>,
        pool: &mut UrmaBufferPool,
    ) -> (routed: Result<Vec<CompletionEvent>>)
        requires
            plane_wf(*old(self), *old(pool)),
        ensures
            plane_wf(*final(self), *final(pool)),
            final(self).keeps(*old(self)),
            ({
                let expected = plane(*old(self), *old(pool)).route(
                    record,
                    recv_queue,
                    model::read_view(read),
                );
                &&& plane(*final(self), *final(pool)) == expected.plane
                &&& match routed {
                    Ok(events) => expected.outcome == Ok::<Seq<EventView>, ErrorView>(
                        event_views(events@),
                    ),
                    Err(error) => expected.outcome == Err::<Seq<EventView>, ErrorView>(error@),
                }
            }),
    {
        reveal(PlaneView::route);
        if !record.user_ctx_valid {
            self.count_error();
            return Err(completion_error(record.status, record.opcode, 0));
        }
        let token = match WrToken::decode(record.user_ctx) {
            Ok(token) => token,
            Err(error) => {
                return Err(error);
            },
        };
        if token.connection_id != self.connection_id || token.generation != self.generation {
            return Err(protocol("stale or foreign CQE user_ctx"));
        }
        let expected_recv = token.operation == OperationType::Recv;
        if expected_recv != recv_queue || record.is_recv != recv_queue || !record.is_jetty {
            self.count_error();
            return Err(protocol("CQE queue/operation flags disagree"));
        }
        match token.operation {
            OperationType::Send => self.route_send_frontier(record, pool),
            OperationType::Recv => self.route_recv(record, read, pool),
        }
    }

    fn route_recv(&mut self, record: CompletionRecord, read: Result<Vec<u8>>, pool: &mut UrmaBufferPool) -> (routed:
        Result<Vec<CompletionEvent>>)
        requires
            plane_wf(*old(self), *old(pool)),
            WrToken::decode_error(record.user_ctx) is None,
            model::operation_of(record.user_ctx) == OperationType::Recv,
        ensures
            plane_wf(*final(self), *final(pool)),
            final(self).keeps(*old(self)),
            ({
                let expected = plane(*old(self), *old(pool)).route_recv(
                    record,
                    model::read_view(read),
                );
                &&& plane(*final(self), *final(pool)) == expected.plane
                &&& match routed {
                    Ok(events) => expected.outcome == Ok::<Seq<EventView>, ErrorView>(
                        event_views(events@),
                    ),
                    Err(error) => expected.outcome == Err::<Seq<EventView>, ErrorView>(error@),
                }
            }),
    {
        let ghost before = plane(*self, *pool);
        let user_ctx: u64 = record.user_ctx;
        let token = match WrToken::decode(user_ctx) {
            Ok(token) => token,
            Err(error) => {
                return Err(error);
            },
        };
        let wr = match self.take_recv(user_ctx) {
            Ok(wr) => wr,
            Err(error) => {
                return Err(error);
            },
        };
        proof {
            before.lemma_recv_taken(user_ctx);
        }
        let ghost taken = plane(*self, *pool);
        match validate_completion_status(record.status, record.opcode, user_ctx) {
            Ok(()) => {},
            Err(error) => {
                self.fail_recv(user_ctx, pool);
                return Err(error);
            },
        }
        if record.opcode != 0 {
            self.fail_recv(user_ctx, pool);
            return Err(
                Error::Protocol(
                    with_number("unexpected receive CQE opcode ", record.opcode as u64, ""),
                ),
            );
        }
        let bytes = match pool.complete_recv(token.slot, record.completion_len, read) {
            Ok(bytes) => bytes,
            Err(error) => {
                return Err(error);
            },
        };
        let released = pool.release(token.slot);
        assert(released is Ok);
        proof {
            assert(pool@ =~= taken.pool.after_release(token.slot));
            taken.lemma_pool_change(pool@, token.slot.position() as int);
        }
        self.count_recv(wr.sequence);
        let mut events: Vec<CompletionEvent> = Vec::new();
        events.push(CompletionEvent::RecvCompleted { slot: token.slot, bytes });
        assert(event_views(events@) =~= seq![
            EventView::RecvCompleted { slot: token.slot, bytes: bytes@ },
        ]);
        Ok(events)
    }

    /// The position of a send in the send order.
    fn find_send(&self, user_ctx: u64) -> (position: Option<usize>)
        requires
            self@.wf(),
        ensures
            match position {
                Some(position) => {
                    &&& self@.send_order.contains(user_ctx)
                    &&& position == self@.send_order.index_of(user_ctx)
                    &&& position < self@.send_order.len()
                    &&& position < usize::MAX
                },
                None => !self@.send_order.contains(user_ctx),
            },
    {
        let mut index: usize = 0;
        while index < self.send_order.len()
            invariant
                self@.wf(),
                index <= self.send_order@.len(),
                forall|k: int| 0 <= k < index ==> #[trigger] self.send_order@[k] != user_ctx,
            decreases self.send_order@.len() - index,
        {
            if self.send_order[index] == user_ctx {
                proof {
                    let order = self@.send_order;
                    assert(order[index as int] == user_ctx);
                    let found = order.index_of(user_ctx);
                    assert(order[found] == user_ctx);
                }
                return Some(index);
            }
            index += 1;
        }
        None
    }

    /// A successful signaled send completion is the local completion frontier: all earlier sends
    /// of the ordered queue are retired with it. Their slots stay pinned until then, those of sends
    /// that did not ask for a completion of their own among them.
    fn route_send_frontier(&mut self, record: CompletionRecord, pool: &mut UrmaBufferPool) -> (routed:
        Result<Vec<CompletionEvent>>)
        requires
            plane_wf(*old(self), *old(pool)),
            WrToken::decode_error(record.user_ctx) is None,
        ensures
            plane_wf(*final(self), *final(pool)),
            final(self).keeps(*old(self)),
            ({
                let expected = plane(*old(self), *old(pool)).route_send(record);
                &&& plane(*final(self), *final(pool)) == expected.plane
                &&& match routed {
                    Ok(events) => expected.outcome == Ok::<Seq<EventView>, ErrorView>(
                        event_views(events@),
                    ),
                    Err(error) => expected.outcome == Err::<Seq<EventView>, ErrorView>(error@),
                }
            }),
    {
        let ghost before = plane(*self, *pool);
        let frontier: usize = match self.find_send(record.user_ctx) {
            Some(frontier) => frontier,
            None => {
                return Err(protocol("SEND CQE has no ordered frontier"));
            },
        };
        proof {
            assert(before.poller.send_order[frontier as int] == record.user_ctx);
            assert(before.poller.sends(record.user_ctx));
        }
        // A provider may report a flushed send that asked for no completion. That is accepted only
        // on the error path: it proves that device access has ended.
        let signaled = match self.outstanding_for(record.user_ctx) {
            Some(wr) => wr.signaled,
            None => false,
        };
        if record.status == 0 && !signaled {
            return Err(protocol("SEND CQE corresponds to an unsignaled WR"));
        }
        self.stats.send_cqe = self.stats.send_cqe.saturating_add(1);
        let ghost counted = plane(*self, *pool);
        assert(counted.poller =~= PollerView {
            stats: CompletionStats {
                send_cqe: super::saturated(before.poller.stats.send_cqe + 1),
                ..before.poller.stats
            },
            ..before.poller
        });
        assert(counted.wf()) by {
            assert forall|i: int|
                0 <= i < counted.poller.table.len()
                    && #[trigger] counted.poller.table[i] is Some implies counted.poller.entry_ok(i)
                && counted.held(i) by {
                assert(before.poller.entry_ok(i));
                assert(before.held(i));
            }
            assert forall|k: int|
                0 <= k < counted.poller.send_order.len() implies counted.poller.sends(
                #[trigger] counted.poller.send_order[k],
            ) by {
                assert(before.poller.sends(before.poller.send_order[k]));
            }
        }
        let mut events: Vec<CompletionEvent> = Vec::new();
        let mut retired: usize = 0;
        while retired <= frontier
            invariant
                pool.wf(),
                self.keeps(*old(self)),
                counted.wf(),
                counted.poller.send_order == before.poller.send_order,
                frontier < counted.poller.send_order.len(),
                frontier < usize::MAX,
                retired <= frontier + 1,
                plane(*self, *pool) == counted.retire(retired as nat),
                event_views(events@) == before.send_events(retired as nat),
            decreases frontier + 1 - retired,
        {
            let ghost earlier = plane(*self, *pool);
            proof {
                counted.lemma_retire(retired as nat);
                earlier.lemma_retire_head();
                assert(earlier.poller.send_order[0] == counted.poller.send_order[retired as int]);
            }
            match self.send_order.pop_front() {
                Some(user_ctx) => {
                    match WrToken::decode(user_ctx) {
                        Ok(token) => {
                            let slot: usize = token.slot.index();
                            let sequence = match self.outstanding[slot] {
                                Some(wr) => wr.sequence,
                                None => None,
                            };
                            self.outstanding.set(slot, None);
                            self.retired.push(user_ctx);
                            if record.status != 0 {
                                let completed = pool.complete_error(
                                    token.slot,
                                    OperationType::Send,
                                );
                                assert(completed is Ok);
                            } else {
                                let completed = pool.complete_send(token.slot);
                                assert(completed is Ok);
                            }
                            let released = pool.release(token.slot);
                            assert(released is Ok);
                            self.stats.send_retired = self.stats.send_retired.saturating_add(1);
                            if sequence.is_some() {
                                self.last_completed_send_sequence = sequence;
                            }
                            let ghost listed = events@;
                            events.push(CompletionEvent::SendCompleted { slot: token.slot });
                            proof {
                                assert(pool@ =~= earlier.pool.after_release(token.slot));
                                assert(self@ =~= earlier.retire_head().poller);
                                assert(event_views(events@) =~= event_views(listed).push(
                                    EventView::SendCompleted { slot: token.slot },
                                ));
                                assert(event_views(events@) =~= before.send_events(
                                    (retired + 1) as nat,
                                ));
                            }
                        },
                        Err(_) => {
                            assert(false);
                        },
                    }
                },
                None => {
                    assert(false);
                },
            }
            retired += 1;
        }
        proof {
            counted.lemma_retire((frontier + 1) as nat);
        }
        match validate_completion_status(record.status, record.opcode, record.user_ctx) {
            Ok(()) => Ok(events),
            Err(error) => {
                let ghost done = plane(*self, *pool);
                self.count_error();
                proof {
                    let after = plane(*self, *pool);
                    assert forall|i: int|
                        0 <= i < after.poller.table.len()
                            && #[trigger] after.poller.table[i] is Some implies after.poller.entry_ok(
                        i,
                    ) && after.held(i) by {
                        assert(done.poller.entry_ok(i));
                        assert(done.held(i));
                    }
                    assert forall|k: int|
                        0 <= k < after.poller.send_order.len() implies after.poller.sends(
                        #[trigger] after.poller.send_order[k],
                    ) by {
                        assert(done.poller.sends(done.poller.send_order[k]));
                    }
                }
                Err(error)
            },
        }
    }

    /// The identity checks that directly consumed receives share, and taking the work request out.
    fn take_direct(&mut self, record: &CompletionRecord, pool: &UrmaBufferPool) -> (taken: Result<
        OutstandingWr,
    >)
        requires
            plane_wf(*old(self), *pool),
        ensures
            plane_wf(*final(self), *pool),
            final(self).keeps(*old(self)),
            ({
                let before = plane(*old(self), *pool);
                match taken {
                    Ok(wr) => {
                        &&& before.direct_error(*record) is None
                        &&& wr == before.poller.entry(record.user_ctx)
                        &&& final(self)@ == before.poller.after_take_recv(record.user_ctx)
                        &&& pool@.has(WrToken::of_user_ctx(record.user_ctx).slot)
                        &&& pool@.state(WrToken::of_user_ctx(record.user_ctx).slot)
                            == SlotState::PostedRecv
                        &&& pool@.kind(model::position_of(record.user_ctx))
                            == crate::buffer::SlotKind::Rx
                    },
                    Err(error) => {
                        &&& before.direct_error(*record) matches Some((expected, counts))
                        &&& error@ == expected
                        &&& final(self)@ == if counts {
                            before.poller.with_cqe_error()
                        } else {
                            before.poller
                        }
                    },
                }
            }),
    {
        let ghost before = plane(*self, *pool);
        if !record.user_ctx_valid {
            self.count_error();
            return Err(completion_error(record.status, record.opcode, 0));
        }
        let token = match WrToken::decode(record.user_ctx) {
            Ok(token) => token,
            Err(error) => {
                return Err(error);
            },
        };
        if token.connection_id != self.connection_id || token.generation != self.generation
            || token.operation != OperationType::Recv || !record.is_recv || !record.is_jetty {
            self.count_error();
            return Err(protocol("direct receive CQE identity/queue flags disagree"));
        }
        match self.take_recv(record.user_ctx) {
            Ok(wr) => {
                proof {
                    before.lemma_recv_taken(record.user_ctx);
                }
                Ok(wr)
            },
            Err(error) => Err(error),
        }
    }

    /// Routes one receive completion whose bytes a consumer took in place: `borrowed` holds what
    /// the consumer said, or why the bytes could not be lent. The slot is freed even where the
    /// consumer failed: device access and the loan are over.
    pub fn route_recv_direct(
        &mut self,
        record: CompletionRecord,
        borrowed: Result<Result<()>>,
        pool: &mut UrmaBufferPool,
    ) -> (routed: Result<()>)
        requires
            plane_wf(*old(self), *old(pool)),
        ensures
            plane_wf(*final(self), *final(pool)),
            final(self).keeps(*old(self)),
            ({
                let (after, outcome) = plane(*old(self), *old(pool)).route_direct(
                    record,
                    consumed_view(borrowed),
                );
                &&& plane(*final(self), *final(pool)) == after
                &&& match routed {
                    Ok(()) => outcome == Ok::<(), ErrorView>(()),
                    Err(error) => outcome == Err::<(), ErrorView>(error@),
                }
            }),
    {
        let wr = match self.take_direct(&record, pool) {
            Ok(wr) => wr,
            Err(error) => {
                return Err(error);
            },
        };
        let ghost taken = plane(*self, *pool);
        let token = match WrToken::decode(record.user_ctx) {
            Ok(token) => token,
            Err(error) => {
                return Err(error);
            },
        };
        match validate_completion_status(record.status, record.opcode, record.user_ctx) {
            Ok(()) => {},
            Err(error) => {
                self.fail_recv(record.user_ctx, pool);
                return Err(error);
            },
        }
        if record.opcode != 0 {
            self.fail_recv(record.user_ctx, pool);
            return Err(
                Error::Protocol(
                    with_number("unexpected receive CQE opcode ", record.opcode as u64, ""),
                ),
            );
        }
        let consumed = pool.complete_recv_with(token.slot, record.completion_len, borrowed);
        match pool.release(token.slot) {
            Ok(()) => {},
            Err(error) => {
                return Err(error);
            },
        }
        proof {
            assert(pool@ =~= taken.pool.after_release(token.slot));
            taken.lemma_pool_change(pool@, token.slot.position() as int);
        }
        match consumed {
            Ok(()) => {
                self.count_recv(wr.sequence);
                Ok(())
            },
            Err(error) => Err(error),
        }
    }

    /// Routes one receive completion whose bytes stay in the slot until a window is leased.
    pub fn route_recv_leased(&mut self, record: CompletionRecord, pool: &mut UrmaBufferPool) -> (routed:
        Result<CompletedRecv>)
        requires
            plane_wf(*old(self), *old(pool)),
        ensures
            plane_wf(*final(self), *final(pool)),
            final(self).keeps(*old(self)),
            ({
                let (after, outcome) = plane(*old(self), *old(pool)).route_leased(record);
                &&& plane(*final(self), *final(pool)) == after
                &&& match routed {
                    Ok(completed) => outcome == Ok::<CompletedRecv, ErrorView>(completed),
                    Err(error) => outcome == Err::<CompletedRecv, ErrorView>(error@),
                }
            }),
            routed matches Ok(completed) ==> completed.length == record.completion_len,
    {
        let wr = match self.take_direct(&record, pool) {
            Ok(wr) => wr,
            Err(error) => {
                return Err(error);
            },
        };
        let ghost taken = plane(*self, *pool);
        let token = match WrToken::decode(record.user_ctx) {
            Ok(token) => token,
            Err(error) => {
                return Err(error);
            },
        };
        match validate_completion_status(record.status, record.opcode, record.user_ctx) {
            Ok(()) => {},
            Err(error) => {
                self.fail_recv(record.user_ctx, pool);
                return Err(error);
            },
        }
        if record.opcode != 0 {
            self.fail_recv(record.user_ctx, pool);
            return Err(
                Error::Protocol(
                    with_number("unexpected receive CQE opcode ", record.opcode as u64, ""),
                ),
            );
        }
        match pool.complete_recv_leased(token.slot, record.completion_len) {
            Ok(()) => {},
            Err(error) => {
                return Err(error);
            },
        }
        proof {
            taken.lemma_pool_change(pool@, token.slot.position() as int);
        }
        self.count_recv(wr.sequence);
        Ok(
            CompletedRecv {
                slot: token.slot,
                sequence: wr.sequence,
                length: record.completion_len,
            },
        )
    }

    /// Counts one poll of a queue that gave `count` records.
    fn count_queue_poll(&mut self, recv_queue: bool, count: usize)
        ensures
            final(self)@ == old(self)@.after_queue_poll(recv_queue, count as nat),
            final(self).keeps(*old(self)),
    {
        let empty: u64 = if count == 0 {
            1
        } else {
            0
        };
        if recv_queue {
            self.stats.recv_jfc_poll_calls = self.stats.recv_jfc_poll_calls.saturating_add(1);
            self.stats.recv_jfc_empty_polls = self.stats.recv_jfc_empty_polls.saturating_add(empty);
        } else {
            self.stats.send_jfc_poll_calls = self.stats.send_jfc_poll_calls.saturating_add(1);
            self.stats.send_jfc_empty_polls = self.stats.send_jfc_empty_polls.saturating_add(empty);
        }
        assert(self@ =~= old(self)@.after_queue_poll(recv_queue, count as nat));
    }

    /// Whether a queue is to be polled: only one with outstanding work requests is.
    pub fn queue_is_active(&self, recv_queue: bool) -> (active: bool)
        ensures
            active == if recv_queue {
                self@.receives > 0
            } else {
                self@.send_order.len() > 0
            },
    {
        if recv_queue {
            self.outstanding_recv != 0
        } else {
            self.send_order.len() != 0
        }
    }

    /// Takes in what polling one queue gave: the records, each with what reading the bytes of its
    /// receive gave. The first completion that fails ends the routing.
    #[verifier::rlimit(60)]
    pub fn poll_active(
        &mut self,
        recv_queue: bool,
        polled: core::result::Result<Vec<(CompletionRecord, Result<Vec<u8>>)>, FfiError>,
        pool: &mut UrmaBufferPool,
    ) -> (routed: Result<Vec<CompletionEvent>>)
        requires
            plane_wf(*old(self), *old(pool)),
        ensures
            plane_wf(*final(self), *final(pool)),
            final(self).keeps(*old(self)),
            match polled {
                Err(failure) => {
                    &&& routed matches Err(error)
                    &&& error@ == failure.mapped(
                        if recv_queue {
                            "poll_recv_jfc"@
                        } else {
                            "poll_send_jfc"@
                        },
                    )
                    &&& final(self)@ == old(self)@.after_queue_poll(recv_queue, 1)
                    &&& final(pool)@ == old(pool)@
                },
                Ok(batch) => {
                    let counted = PlaneView {
                        poller: old(self)@.after_queue_poll(recv_queue, batch@.len()),
                        pool: old(pool)@,
                    };
                    let expected = counted.route_all(
                        batch_records(batch@),
                        recv_queue,
                        batch_reads(batch@),
                    );
                    &&& plane(*final(self), *final(pool)) == expected.plane
                    &&& match routed {
                        Ok(events) => expected.outcome == Ok::<Seq<EventView>, ErrorView>(
                            event_views(events@),
                        ),
                        Err(error) => expected.outcome == Err::<Seq<EventView>, ErrorView>(error@),
                    }
                },
            },
    {
        let mut remaining = match polled {
            Ok(batch) => batch,
            Err(failure) => {
                self.count_queue_poll(recv_queue, 1);
                let operation = if recv_queue {
                    "poll_recv_jfc"
                } else {
                    "poll_send_jfc"
                };
                return Err(map_ffi_error(operation, failure));
            },
        };
        let ghost batch = remaining@;
        let ghost records = batch_records(batch);
        let ghost reads = batch_reads(batch);
        self.count_queue_poll(recv_queue, remaining.len());
        let ghost counted = plane(*self, *pool);
        let mut events: Vec<CompletionEvent> = Vec::new();
        let ghost mut done: int = 0;
        assert(event_views(events@) =~= Seq::empty());
        while remaining.len() > 0
            invariant
                plane_wf(*self, *pool),
                self.keeps(*old(self)),
                0 <= done <= batch.len(),
                polled is Ok,
                polled->Ok_0@ == batch,
                remaining@ == batch.skip(done),
                records == batch_records(batch),
                reads == batch_reads(batch),
                counted == (PlaneView {
                    poller: old(self)@.after_queue_poll(recv_queue, batch.len()),
                    pool: old(pool)@,
                }),
                counted.route_all(records.take(done), recv_queue, reads) == (model::Routed {
                    plane: plane(*self, *pool),
                    outcome: Ok(event_views(events@)),
                }),
            decreases remaining@.len(),
        {
            let (record, read) = remaining.remove(0);
            proof {
                let longer = records.take(done + 1);
                assert(longer.drop_last() =~= records.take(done));
                assert(longer.last() == record);
                assert(reads[done] == model::read_view(read));
                assert(remaining@ =~= batch.skip(done + 1));
            }
            match self.route(record, recv_queue, read, pool) {
                Ok(more) => {
                    let mut more = more;
                    let ghost listed = events@;
                    let ghost added = more@;
                    events.append(&mut more);
                    assert(event_views(events@) =~= event_views(listed) + event_views(added));
                },
                Err(error) => {
                    proof {
                        counted.lemma_route_all_stops(records, recv_queue, reads, done + 1);
                    }
                    return Err(error);
                },
            }
            proof {
                done = done + 1;
            }
        }
        assert(records.take(done) =~= records);
        Ok(events)
    }

    /// Begins a poll at `now`; gives the time at which the previous one began.
    pub fn begin_poll(&mut self, now: u128) -> (previous: Option<u128>)
        ensures
            previous == old(self)@.last_poll,
            final(self)@ == old(self)@.after_begin(now),
            final(self).keeps(*old(self)),
    {
        let previous = self.last_poll_started;
        self.last_poll_started = Some(now);
        self.stats.poll_calls = self.stats.poll_calls.saturating_add(1);
        assert(self@ =~= old(self)@.after_begin(now));
        previous
    }

    /// Counts a poll that gave completions.
    fn record_nonempty(&mut self, count: usize, previous: Option<u128>, now: u128)
        ensures
            final(self)@ == old(self)@.after_nonempty(count as nat, previous, now),
            final(self).keeps(*old(self)),
    {
        self.empty_streak = 0;
        self.stats.nonempty_polls = self.stats.nonempty_polls.saturating_add(1);
        self.stats.completion_batch_total = self.stats.completion_batch_total.saturating_add(
            count as u64,
        );
        if let Some(last) = previous {
            let gap: u128 = if now >= last {
                now - last
            } else {
                0
            };
            self.stats.max_completion_poll_gap_ns = max_u64(
                self.stats.max_completion_poll_gap_ns,
                super::duration_ns_saturating(gap),
            );
        }
        assert(self@ =~= old(self)@.after_nonempty(count as nat, previous, now));
    }

    /// What follows the first polls of the queues: `count` completions were routed. An empty poll
    /// is returned at once as long as the run of empty polls is short or nothing is outstanding.
    pub fn after_first_poll(&mut self, count: usize, previous: Option<u128>, now: u128) -> (next:
        AfterPoll)
        ensures
            final(self).keeps(*old(self)),
            if count > 0 {
                &&& next == AfterPoll::Return
                &&& final(self)@ == old(self)@.after_nonempty(count as nat, previous, now)
            } else if old(self)@.after_empty().empty_streak <= super::HOT_POLL_LIMIT || old(
                self,
            )@.outstanding() == 0 {
                &&& next == AfterPoll::Return
                &&& final(self)@ == old(self)@.after_empty().with_empty_poll()
            } else {
                &&& next == AfterPoll::Rearm
                &&& final(self)@ == old(self)@.after_empty()
            },
    {
        if count > 0 {
            self.record_nonempty(count, previous, now);
            return AfterPoll::Return;
        }
        self.empty_streak = self.empty_streak.saturating_add(1);
        self.stats.max_empty_streak = max_u64(self.stats.max_empty_streak, self.empty_streak);
        assert(self@ =~= old(self)@.after_empty());
        if !should_wait_for_event(self.empty_streak) || (self.send_order.len() == 0
            && self.outstanding_recv == 0) {
            self.stats.empty_polls = self.stats.empty_polls.saturating_add(1);
            assert(self@ =~= old(self)@.after_empty().with_empty_poll());
            return AfterPoll::Return;
        }
        AfterPoll::Rearm
    }

    /// Whether a queue is to be armed: one with outstanding work requests that is not armed yet.
    pub fn needs_arming(&self, recv_queue: bool) -> (needed: bool)
        ensures
            needed == if recv_queue {
                self@.receives > 0 && !self@.recv_armed
            } else {
                self@.send_order.len() > 0 && !self@.send_armed
            },
    {
        if recv_queue {
            self.outstanding_recv != 0 && !self.recv_armed
        } else {
            self.send_order.len() != 0 && !self.send_armed
        }
    }

    /// Takes in what arming a queue gave.
    pub fn rearm_active(&mut self, recv_queue: bool, armed: core::result::Result<(), FfiError>) -> (rearmed:
        Result<()>)
        ensures
            final(self).keeps(*old(self)),
            match armed {
                Ok(()) => {
                    &&& rearmed is Ok
                    &&& final(self)@ == old(self)@.after_arm(recv_queue)
                },
                Err(failure) => {
                    &&& rearmed matches Err(error)
                    &&& error@ == failure.mapped(
                        if recv_queue {
                            "rearm_recv_jfc"@
                        } else {
                            "rearm_send_jfc"@
                        },
                    )
                    &&& final(self)@ == old(self)@
                },
            },
    {
        match armed {
            Ok(()) => {
                if recv_queue {
                    self.recv_armed = true;
                } else {
                    self.send_armed = true;
                }
                self.stats.jfc_rearm_count = self.stats.jfc_rearm_count.saturating_add(1);
                assert(self@ =~= old(self)@.after_arm(recv_queue));
                Ok(())
            },
            Err(failure) => {
                let operation = if recv_queue {
                    "rearm_recv_jfc"
                } else {
                    "rearm_send_jfc"
                };
                Err(map_ffi_error(operation, failure))
            },
        }
    }

    /// What follows the polls that close the race between an empty poll and the arming of a queue.
    pub fn after_armed_poll(&mut self, count: usize, previous: Option<u128>, now: u128) -> (next:
        AfterPoll)
        ensures
            final(self).keeps(*old(self)),
            if count > 0 {
                &&& next == AfterPoll::Return
                &&& final(self)@ == old(self)@.after_nonempty(count as nat, previous, now)
            } else {
                &&& next == AfterPoll::Wait
                &&& final(self)@ == old(self)@
            },
    {
        if count > 0 {
            self.record_nonempty(count, previous, now);
            AfterPoll::Return
        } else {
            AfterPoll::Wait
        }
    }

    /// Takes in a wait for an event that lasted `elapsed` nanoseconds; says whether the queues are
    /// to be polled again, after which the event is acknowledged.
    pub fn after_event_wait(&mut self, elapsed: u64, ready: Option<JfcEventReady>) -> (poll: bool)
        ensures
            poll == ready is Some,
            final(self)@ == old(self)@.after_wait(elapsed, ready),
            final(self).keeps(*old(self)),
    {
        self.stats.event_wait_count = self.stats.event_wait_count.saturating_add(1);
        self.stats.event_wait_ns = self.stats.event_wait_ns.saturating_add(elapsed);
        self.stats.max_event_wait_ns = max_u64(self.stats.max_event_wait_ns, elapsed);
        match ready {
            None => {
                self.stats.event_timeout_count = self.stats.event_timeout_count.saturating_add(1);
                self.stats.empty_polls = self.stats.empty_polls.saturating_add(1);
                assert(self@ =~= old(self)@.after_wait(elapsed, ready));
                false
            },
            Some(which) => {
                self.stats.event_wakeup_count = self.stats.event_wakeup_count.saturating_add(1);
                if which.send {
                    self.send_armed = false;
                }
                if which.recv {
                    self.recv_armed = false;
                }
                assert(self@ =~= old(self)@.after_wait(elapsed, ready));
                true
            },
        }
    }

    /// Takes in that the polls after an event gave `count` completions in all.
    pub fn after_event_poll(&mut self, count: usize, previous: Option<u128>, now: u128)
        ensures
            final(self)@ == old(self)@.after_event(count as nat, previous, now),
            final(self).keeps(*old(self)),
    {
        if count == 0 {
            self.stats.spurious_wakeup_count = self.stats.spurious_wakeup_count.saturating_add(1);
            self.stats.empty_polls = self.stats.empty_polls.saturating_add(1);
            assert(self@ =~= old(self)@.after_event(count as nat, previous, now));
        } else {
            self.record_nonempty(count, previous, now);
        }
    }

    /// Counts a direct receive poll that gave `count` completions, after they were routed.
    pub fn finish_direct_poll(&mut self, count: usize, previous: Option<u128>, now: u128)
        ensures
            final(self).keeps(*old(self)),
            final(self)@ == if count == 0 {
                old(self)@.with_empty_poll().after_empty()
            } else {
                old(self)@.after_nonempty(count as nat, previous, now)
            },
    {
        if count == 0 {
            self.stats.empty_polls = self.stats.empty_polls.saturating_add(1);
            self.empty_streak = self.empty_streak.saturating_add(1);
            self.stats.max_empty_streak = max_u64(self.stats.max_empty_streak, self.empty_streak);
            assert(self@ =~= old(self)@.with_empty_poll().after_empty());
        } else {
            self.record_nonempty(count, previous, now);
        }
    }

    /// Counts one poll of the receive queue for a direct receive.
    pub fn count_direct_queue_poll(&mut self, count: usize)
        ensures
            final(self)@ == old(self)@.after_queue_poll(true, count as nat),
            final(self).keeps(*old(self)),
    {
        self.count_queue_poll(true, count);
    }

    /// Counts one call that handed `count` work requests to the provider.
    pub fn record_post_call(&mut self, operation: OperationType, count: usize)
        ensures
            final(self)@ == old(self)@.after_post_call(operation, count as u64),
            final(self).keeps(*old(self)),
    {
        match operation {
            OperationType::Send => {
                self.stats.send_post_calls = self.stats.send_post_calls.saturating_add(1);
                self.stats.send_post_list_max = max_u64(
                    self.stats.send_post_list_max,
                    count as u64,
                );
            },
            OperationType::Recv => {
                self.stats.recv_post_calls = self.stats.recv_post_calls.saturating_add(1);
                self.stats.recv_post_list_max = max_u64(
                    self.stats.recv_post_list_max,
                    count as u64,
                );
            },
        }
        assert(self@ =~= old(self)@.after_post_call(operation, count as u64));
    }

    /// The work requests that were retired since the last call, whose handles can be freed.
    pub fn take_retired(&mut self) -> (retired: Vec<u64>)
        ensures
            retired@ == old(self)@.retired,
            final(self)@ == (PollerView { retired: Seq::empty(), ..old(self)@ }),
            final(self).keeps(*old(self)),
    {
        let mut retired: Vec<u64> = Vec::new();
        retired.append(&mut self.retired);
        assert(retired@ =~= old(self)@.retired);
        assert(self@ =~= (PollerView { retired: Seq::empty(), ..old(self)@ }));
        retired
    }

    pub fn stats(&self) -> (stats: CompletionStats)
        ensures
            stats == self@.stats,
    {
        self.stats
    }

    pub fn connection_id(&self) -> (connection_id: u16)
        ensures
            connection_id == self@.connection_id,
    {
        self.connection_id
    }

    pub fn generation(&self) -> (generation: u8)
        ensures
            generation == self@.generation,
    {
        self.generation
    }

    /// The number of outstanding work requests.
    pub fn outstanding(&self) -> (count: usize)
        requires
            self@.wf(),
        ensures
            count == self@.outstanding(),
    {
        proof {
            model::lemma_counts_bounded(self@.table);
            assert(self.outstanding.len() == self@.table.len());
        }
        self.send_order.len() + self.outstanding_recv
    }

    /// The number of outstanding sends.
    pub fn outstanding_send(&self) -> (count: usize)
        ensures
            count == self@.send_order.len(),
    {
        self.send_order.len()
    }

    /// The number of outstanding receives.
    pub fn outstanding_recv(&self) -> (count: usize)
        ensures
            count == self@.receives,
    {
        self.outstanding_recv
    }

    /// The outstanding work requests of an operation by sequence and slot, and the last that
    /// completed.
    #[verifier::rlimit(60)]
    pub fn diagnostic(&self, operation: OperationType, pool: &UrmaBufferPool) -> (diagnostic:
        CompletionDiagnostic)
        requires
            self@.wf(),
        ensures
            plane(*self, *pool).lists_pending(operation, diagnostic.pending@),
            diagnostic.last_completed_sequence == match operation {
                OperationType::Send => self@.last_send,
                OperationType::Recv => self@.last_recv,
            },
    {
        let ghost here = plane(*self, *pool);
        let ghost table = here.poller.table;
        let mut pending: Vec<PendingWrSnapshot> = Vec::new();
        let mut index: usize = 0;
        while index < self.outstanding.len()
            invariant
                self@.wf(),
                here == plane(*self, *pool),
                table == self.outstanding@,
                table == here.poller.table,
                index <= table.len(),
                forall|a: int, b: int|
                    0 <= a < b < pending@.len() ==> #[trigger] model::pending_before(
                        pending@[a],
                        pending@[b],
                    ),
                forall|i: int|
                    0 <= i < index && model::is_entry(#[trigger] table[i], operation)
                        ==> pending@.contains(here.pending_at(i)),
                forall|k: int|
                    0 <= k < pending@.len() ==> exists|i: int|
                        0 <= i < index && model::is_entry(#[trigger] table[i], operation)
                            && here.pending_at(i) == #[trigger] pending@[k],
            decreases table.len() - index,
        {
            if let Some(wr) = self.outstanding[index] {
                assert(here.poller.entry_ok(index as int));
                match WrToken::decode(wr.user_ctx) {
                    Ok(token) => {
                        if token.operation == operation {
                            let state = match pool.slot_state(token.slot) {
                                Some(state) => state,
                                None => SlotState::Free,
                            };
                            let item = PendingWrSnapshot {
                                sequence: wr.sequence,
                                slot: token.slot,
                                state,
                            };
                            let ghost listed = pending@;
                            assert(item == here.pending_at(index as int));
                            assert forall|k: int| 0 <= k < listed.len() implies (
                            #[trigger] listed[k]).slot.position() < index by {
                                let i = choose|i: int|
                                    0 <= i < index && model::is_entry(#[trigger] table[i], operation)
                                        && here.pending_at(i) == listed[k];
                                assert(here.poller.entry_ok(i));
                            }
                            let at: usize = insert_pending(&mut pending, item);
                            proof {
                                assert(pending@[at as int] == item);
                                assert forall|i: int|
                                    0 <= i < index + 1 && model::is_entry(
                                        #[trigger] table[i],
                                        operation,
                                    ) implies pending@.contains(here.pending_at(i)) by {
                                    if i < index {
                                        let k = choose|k: int|
                                            0 <= k < listed.len() && listed[k] == here.pending_at(i);
                                        if k < at {
                                            assert(pending@[k] == listed[k]);
                                        } else {
                                            assert(pending@[k + 1] == listed[k]);
                                        }
                                    }
                                }
                                assert forall|k: int| 0 <= k < pending@.len() implies exists|i: int|
                                    0 <= i < index + 1 && model::is_entry(
                                        #[trigger] table[i],
                                        operation,
                                    ) && here.pending_at(i) == #[trigger] pending@[k] by {
                                    if k == at {
                                        assert(model::is_entry(table[index as int], operation));
                                    } else {
                                        let j = if k < at {
                                            k
                                        } else {
                                            k - 1
                                        };
                                        assert(pending@[k] == listed[j]);
                                        let i = choose|i: int|
                                            0 <= i < index && model::is_entry(
                                                #[trigger] table[i],
                                                operation,
                                            ) && here.pending_at(i) == listed[j];
                                        assert(model::is_entry(table[i], operation));
                                    }
                                }
                            }
                        }
                    },
                    Err(_) => {},
                }
            }
            index += 1;
        }
        let last_completed_sequence = match operation {
            OperationType::Send => self.last_completed_send_sequence,
            OperationType::Recv => self.last_completed_recv_sequence,
        };
        CompletionDiagnostic { pending, last_completed_sequence }
    }
}

/// Inserts an item of a slot that is not listed yet at its place in key order.
fn insert_pending(pending: &mut Vec<PendingWrSnapshot>, item: PendingWrSnapshot) -> (at: usize)
    requires
        forall|a: int, b: int|
            0 <= a < b < old(pending)@.len() ==> #[trigger] model::pending_before(
                old(pending)@[a],
                old(pending)@[b],
            ),
        forall|k: int|
            0 <= k < old(pending)@.len() ==> (#[trigger] old(pending)@[k]).slot.position()
                != item.slot.position(),
    ensures
        at <= old(pending)@.len(),
        final(pending)@ == old(pending)@.insert(at as int, item),
        forall|a: int, b: int|
            0 <= a < b < final(pending)@.len() ==> #[trigger] model::pending_before(
                final(pending)@[a],
                final(pending)@[b],
            ),
{
    let ghost listed = pending@;
    let mut at: usize = 0;
    while at < pending.len() && is_pending_before(&pending[at], &item)
        invariant
            listed == pending@,
            listed == old(pending)@,
            at <= pending@.len(),
            forall|a: int| 0 <= a < at ==> #[trigger] model::pending_before(listed[a], item),
        decreases pending@.len() - at,
    {
        at += 1;
    }
    pending.insert(at, item);
    proof {
        let longer = pending@;
        assert forall|a: int, b: int|
            0 <= a < b < longer.len() implies #[trigger] model::pending_before(longer[a], longer[b]) by {
            let p = if a <= at {
                a
            } else {
                a - 1
            };
            let q = if b <= at {
                b
            } else {
                b - 1
            };
            if a < at && b != at {
                assert(longer[a] == listed[a] && longer[b] == listed[q]);
                if b < at {
                    assert(model::pending_before(listed[a], listed[b]));
                } else {
                    assert(model::pending_before(listed[a], listed[b - 1]));
                }
            } else if a == at {
                assert(!model::pending_before(listed[at as int], item));
                assert(longer[b] == listed[b - 1]);
                if b - 1 > at {
                    assert(model::pending_before(listed[at as int], listed[b - 1]));
                }
            } else if a > at {
                assert(model::pending_before(listed[a - 1], listed[b - 1]));
            }
        }
    }
    at
}

fn is_pending_before(left: &PendingWrSnapshot, right: &PendingWrSnapshot) -> (before: bool)
    ensures
        before == model::pending_before(*left, *right),
{
    match left.sequence {
        None => match right.sequence {
            None => left.slot.index() < right.slot.index(),
            Some(_) => true,
        },
        Some(l) => match right.sequence {
            None => false,
            Some(r) => l < r || (l == r && left.slot.index() < right.slot.index()),
        },
    }
}

/// How a consumer fared with the bytes of a receive.
pub open spec fn consumed_view(borrowed: Result<Result<()>>) -> core::result::Result<
    core::result::Result<(), ErrorView>,
    ErrorView,
> {
    match borrowed {
        Ok(Ok(())) => Ok(Ok(())),
        Ok(Err(error)) => Ok(Err(error@)),
        Err(error) => Err(error@),
    }
}

/// The records of a polled batch.
pub open spec fn batch_records(batch: Seq<(CompletionRecord, Result<Vec<u8>>)>) -> Seq<
    CompletionRecord,
> {
    batch.map_values(|item: (CompletionRecord, Result<Vec<u8>>)| item.0)
}

/// What reading the bytes of each receive of a polled batch gave.
pub open spec fn batch_reads(batch: Seq<(CompletionRecord, Result<Vec<u8>>)>) -> Seq<
    core::result::Result<Seq<u8>, ErrorView>,
> {
    batch.map_values(|item: (CompletionRecord, Result<Vec<u8>>)| model::read_view(item.1))
}

proof fn lemma_retired_prefix(plane: PlaneView, count: nat)
    requires
        count <= plane.poller.send_order.len(),
    ensures
        plane.retire(count).poller.send_order == plane.poller.send_order.skip(count as int),
        plane.retire(count).poller.retired == plane.poller.retired + plane.poller.send_order.take(
            count as int,
        ),
    decreases count,
{
    let order = plane.poller.send_order;
    if count == 0 {
        assert(order.skip(0) =~= order);
        assert(plane.poller.retired + order.take(0) =~= plane.poller.retired);
    } else {
        let fewer = (count - 1) as nat;
        lemma_retired_prefix(plane, fewer);
        assert(order.skip(fewer as int).drop_first() =~= order.skip(count as int));
        assert(order.skip(fewer as int)[0] == order[fewer as int]);
        assert((plane.poller.retired + order.take(fewer as int)).push(order[fewer as int])
            =~= plane.poller.retired + order.take(count as int));
    }
}

/// One send completion retires its own send and all that were posted before it, in the order in
/// which they were posted, and none that was posted after it; a failed one retires them too.
pub proof fn send_completions_retire_a_prefix(before: PlaneView, record: CompletionRecord)
    requires
        before.wf(),
        before.poller.send_order.contains(record.user_ctx),
        record.status != 0 || before.poller.entry(record.user_ctx).signaled,
    ensures
        ({
            let order = before.poller.send_order;
            let last = before.frontier(record.user_ctx);
            let routed = before.route_send(record);
            &&& 0 <= last < order.len() && order[last] == record.user_ctx
            &&& routed.plane.poller.send_order == order.skip(last + 1)
            &&& routed.plane.poller.retired == before.poller.retired + order.take(last + 1)
            &&& record.status == 0 ==> routed.outcome == Ok::<Seq<EventView>, ErrorView>(
                before.send_events((last + 1) as nat),
            )
        }),
{
    let last = before.frontier(record.user_ctx);
    let counted = PlaneView {
        poller: PollerView {
            stats: CompletionStats {
                send_cqe: super::saturated(before.poller.stats.send_cqe + 1),
                ..before.poller.stats
            },
            ..before.poller
        },
        ..before
    };
    lemma_retired_prefix(counted, (last + 1) as nat);
}

proof fn lemma_retire_keeps_allocated(plane: PlaneView, count: nat, slot: int)
    requires
        plane.wf(),
        count <= plane.poller.send_order.len(),
        0 <= slot < plane.pool.states.len(),
        plane.pool.states[slot] == SlotState::Allocated,
    ensures
        plane.retire(count).pool.states.len() == plane.pool.states.len(),
        plane.retire(count).pool.states[slot] == SlotState::Allocated,
        plane.retire(count).pool.config == plane.pool.config,
    decreases count,
{
    if count > 0 {
        let fewer = (count - 1) as nat;
        lemma_retire_keeps_allocated(plane, fewer, slot);
        plane.lemma_retire(fewer);
        plane.retire(fewer).lemma_retire_head();
    }
}

proof fn lemma_route_keeps_allocated(
    before: PlaneView,
    record: CompletionRecord,
    recv_queue: bool,
    read: core::result::Result<Seq<u8>, ErrorView>,
    slot: int,
)
    requires
        before.wf(),
        0 <= slot < before.pool.states.len(),
        before.pool.states[slot] == SlotState::Allocated,
    ensures
        ({
            let after = before.route(record, recv_queue, read).plane;
            &&& after.pool.states.len() == before.pool.states.len()
            &&& after.pool.states[slot] == SlotState::Allocated
            &&& after.pool.config == before.pool.config
        }),
{
    let user_ctx = record.user_ctx;
    reveal(PlaneView::route);
    if model::operation_of(user_ctx) == OperationType::Send {
        if before.poller.send_order.contains(user_ctx) {
            let counted_poller = PollerView {
                stats: CompletionStats {
                    send_cqe: super::saturated(before.poller.stats.send_cqe + 1),
                    ..before.poller.stats
                },
                ..before.poller
            };
            before.lemma_counters(counted_poller);
            lemma_retire_keeps_allocated(
                PlaneView { poller: counted_poller, ..before },
                (before.frontier(user_ctx) + 1) as nat,
                slot,
            );
        }
    } else if before.poller.take_error(user_ctx) is None {
        before.lemma_recv_taken(user_ctx);
    }
}

proof fn lemma_route_leaves_prepared_slots(
    before: PlaneView,
    record: CompletionRecord,
    recv_queue: bool,
    read: core::result::Result<Seq<u8>, ErrorView>,
    slots: Seq<SlotId>,
)
    requires
        before.wf(),
        before.pool.holds(slots, SlotKind::Tx, SlotState::Allocated),
    ensures
        before.route(record, recv_queue, read).plane.pool.holds(
            slots,
            SlotKind::Tx,
            SlotState::Allocated,
        ),
{
    let after = before.route(record, recv_queue, read).plane;
    assert forall|k: int| 0 <= k < slots.len() implies after.pool.has(#[trigger] slots[k])
        && after.pool.kind(slots[k].position() as int) == SlotKind::Tx && after.pool.state(slots[k])
        == SlotState::Allocated by {
        assert(before.pool.has(slots[k]));
        lemma_route_keeps_allocated(
            before,
            record,
            recv_queue,
            read,
            slots[k].position() as int,
        );
    }
}

/// Slots that were prepared for a batch of sends and not posted yet are left alone by all
/// completions that come in between: the batch can still be posted, or given up, afterwards.
pub proof fn completions_leave_prepared_slots(
    before: PlaneView,
    records: Seq<CompletionRecord>,
    recv_queue: bool,
    reads: Seq<core::result::Result<Seq<u8>, ErrorView>>,
    slots: Seq<SlotId>,
)
    requires
        before.wf(),
        before.pool.holds(slots, SlotKind::Tx, SlotState::Allocated),
    ensures
        before.route_all(records, recv_queue, reads).plane.wf(),
        before.route_all(records, recv_queue, reads).plane.pool.holds(
            slots,
            SlotKind::Tx,
            SlotState::Allocated,
        ),
    decreases records.len(),
{
    if records.len() > 0 {
        completions_leave_prepared_slots(before, records.drop_last(), recv_queue, reads, slots);
        let earlier = before.route_all(records.drop_last(), recv_queue, reads).plane;
        let read = reads[records.len() - 1];
        earlier.lemma_route(records.last(), recv_queue, read);
        lemma_route_leaves_prepared_slots(earlier, records.last(), recv_queue, read, slots);
    }
}

/// A work request that is outstanding before and after a completion still holds its slot, in the
/// state that it was in.
pub proof fn routing_keeps_slots_held(
    before: PlaneView,
    record: CompletionRecord,
    recv_queue: bool,
    read: core::result::Result<Seq<u8>, ErrorView>,
    slot: int,
)
    requires
        before.wf(),
        0 <= slot < before.poller.table.len(),
        before.poller.table[slot] is Some,
    ensures
        ({
            let after = before.route(record, recv_queue, read).plane;
            after.poller.table[slot] == before.poller.table[slot] ==> after.pool.states[slot]
                == before.pool.states[slot]
        }),
{
    before.lemma_route(record, recv_queue, read);
    lemma_holder_fixes_state(before, before.route(record, recv_queue, read).plane, slot);
}

proof fn lemma_holder_fixes_state(before: PlaneView, after: PlaneView, slot: int)
    requires
        before.wf(),
        after.wf(),
        0 <= slot < before.poller.table.len(),
        after.poller.table.len() == before.poller.table.len(),
        before.poller.table[slot] is Some,
    ensures
        after.poller.table[slot] == before.poller.table[slot] ==> after.pool.states[slot]
            == before.pool.states[slot],
{
    assert(before.held(slot));
    if after.poller.table[slot] == before.poller.table[slot] {
        assert(after.held(slot));
    }
}

} // verus!
