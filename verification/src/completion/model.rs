//! What the poller knows of outstanding work requests, and what each completion does to that and
//! to the slot pool.

use vstd::prelude::*;

use super::CompletionStats;
use crate::buffer::model as slots;
use crate::buffer::{PoolView, SlotId, SlotKind, SlotState};
use crate::error::ErrorView;
use crate::provider::CompletionRecord;
use crate::text;
use crate::wr::{OperationType, WrToken};

verus! {

/// A work request that the provider may still reference.
#[derive(Clone, Copy, Debug, Eq, PartialEq, Structural)]
pub struct OutstandingWr {
    pub user_ctx: u64,
    pub sequence: Option<u64>,
    pub signaled: bool,
}

/// A completed work request, with its bytes as a sequence.
pub enum EventView {
    SendCompleted { slot: SlotId },
    RecvCompleted { slot: SlotId, bytes: Seq<u8> },
}

/// What a poller knows.
#[verifier::ext_equal]
pub struct PollerView {
    pub connection_id: u16,
    pub generation: u8,
    /// The outstanding work request on each slot.
    pub table: Seq<Option<OutstandingWr>>,
    /// The outstanding sends, in the order in which they were posted.
    pub send_order: Seq<u64>,
    /// The number of outstanding receives.
    pub receives: nat,
    pub last_send: Option<u64>,
    pub last_recv: Option<u64>,
    pub empty_streak: u64,
    pub last_poll: Option<u128>,
    pub send_armed: bool,
    pub recv_armed: bool,
    pub stats: CompletionStats,
    /// The work requests whose handles the provider can free.
    pub retired: Seq<u64>,
}

/// The operation of a `user_ctx`.
pub open spec fn operation_of(user_ctx: u64) -> OperationType {
    WrToken::of_user_ctx(user_ctx).operation
}

/// The slot position of a `user_ctx`.
pub open spec fn position_of(user_ctx: u64) -> int {
    WrToken::of_user_ctx(user_ctx).slot.position() as int
}

/// The direction of the slots that an operation uses.
pub open spec fn kind_of(operation: OperationType) -> SlotKind {
    match operation {
        OperationType::Send => SlotKind::Tx,
        OperationType::Recv => SlotKind::Rx,
    }
}

/// Whether an entry is an outstanding work request of the operation.
pub open spec fn is_entry(entry: Option<OutstandingWr>, operation: OperationType) -> bool {
    entry matches Some(wr) && operation_of(wr.user_ctx) == operation
}

/// The number of outstanding work requests of the operation.
pub open spec fn count_entries(table: Seq<Option<OutstandingWr>>, operation: OperationType) -> nat
    decreases table.len(),
{
    if table.len() == 0 {
        0
    } else {
        count_entries(table.drop_last(), operation) + if is_entry(table.last(), operation) {
            1nat
        } else {
            0nat
        }
    }
}

/// The table with room for a slot.
pub open spec fn grown(table: Seq<Option<OutstandingWr>>, slot: int) -> Seq<Option<OutstandingWr>> {
    if slot < table.len() {
        table
    } else {
        table + Seq::new((slot + 1 - table.len()) as nat, |i: int| None::<OutstandingWr>)
    }
}

/// Replacing an entry changes the count by what it adds and removes.
pub proof fn lemma_count_update(
    table: Seq<Option<OutstandingWr>>,
    index: int,
    entry: Option<OutstandingWr>,
    operation: OperationType,
)
    requires
        0 <= index < table.len(),
    ensures
        count_entries(table.update(index, entry), operation) == count_entries(table, operation) - (
        if is_entry(table[index], operation) {
            1int
        } else {
            0int
        }) + (if is_entry(entry, operation) {
            1int
        } else {
            0int
        }),
    decreases table.len(),
{
    let updated = table.update(index, entry);
    if index == table.len() - 1 {
        assert(updated.drop_last() =~= table.drop_last());
    } else {
        lemma_count_update(table.drop_last(), index, entry, operation);
        assert(updated.drop_last() =~= table.drop_last().update(index, entry));
    }
}

/// Every entry is of one operation, so the counts add up to at most the number of slots.
pub proof fn lemma_counts_bounded(table: Seq<Option<OutstandingWr>>)
    ensures
        count_entries(table, OperationType::Send) + count_entries(table, OperationType::Recv)
            <= table.len(),
    decreases table.len(),
{
    if table.len() > 0 {
        lemma_counts_bounded(table.drop_last());
    }
}

/// Room for more slots adds no entries.
pub proof fn lemma_count_grown(
    table: Seq<Option<OutstandingWr>>,
    slot: int,
    operation: OperationType,
)
    requires
        slot >= 0,
    ensures
        count_entries(grown(table, slot), operation) == count_entries(table, operation),
    decreases slot,
{
    if slot >= table.len() {
        let more = grown(table, slot);
        if slot == table.len() {
            assert(more.drop_last() =~= table);
        } else {
            lemma_count_grown(table, slot - 1, operation);
            assert(more.drop_last() =~= grown(table, slot - 1));
        }
        assert(more.last() == None::<OutstandingWr>);
    }
}

impl PollerView {
    /// A poller of nothing.
    pub open spec fn idle(connection_id: u16, generation: u8) -> Self {
        PollerView {
            connection_id,
            generation,
            table: Seq::empty(),
            send_order: Seq::empty(),
            receives: 0,
            last_send: None,
            last_recv: None,
            empty_streak: 0,
            last_poll: None,
            send_armed: false,
            recv_armed: false,
            stats: CompletionStats::zero(),
            retired: Seq::empty(),
        }
    }

    /// The poller's invariant: an entry stands at its own slot, and the send order lists exactly
    /// the outstanding sends, once each.
    pub open spec fn wf(self) -> bool {
        &&& forall|i: int|
            0 <= i < self.table.len() && #[trigger] self.table[i] is Some ==> self.entry_ok(i)
        &&& self.send_order.no_duplicates()
        &&& forall|k: int|
            0 <= k < self.send_order.len() ==> self.sends(#[trigger] self.send_order[k])
        &&& self.send_order.len() == count_entries(self.table, OperationType::Send)
        &&& self.receives == count_entries(self.table, OperationType::Recv)
    }

    /// Whether the entry at `i` belongs there.
    pub open spec fn entry_ok(self, i: int) -> bool {
        let user_ctx = self.table[i]->0.user_ctx;
        &&& WrToken::decode_error(user_ctx) is None
        &&& position_of(user_ctx) == i
        &&& operation_of(user_ctx) == OperationType::Send ==> self.send_order.contains(user_ctx)
    }

    /// Whether the work request is outstanding.
    pub open spec fn tracks(self, user_ctx: u64) -> bool {
        &&& position_of(user_ctx) < self.table.len()
        &&& self.table[position_of(user_ctx)] matches Some(wr)
        &&& wr.user_ctx == user_ctx
    }

    /// Whether the work request is an outstanding send.
    pub open spec fn sends(self, user_ctx: u64) -> bool {
        &&& self.tracks(user_ctx)
        &&& operation_of(user_ctx) == OperationType::Send
        &&& WrToken::decode_error(user_ctx) is None
    }

    /// The outstanding work request with this `user_ctx`.
    pub open spec fn entry(self, user_ctx: u64) -> OutstandingWr {
        self.table[position_of(user_ctx)]->0
    }

    /// The error that tracking a work request fails with, if it fails.
    pub open spec fn track_error(self, user_ctx: u64) -> Option<ErrorView> {
        if WrToken::decode_error(user_ctx) is Some {
            WrToken::decode_error(user_ctx)
        } else if position_of(user_ctx) < self.table.len() && self.table[position_of(user_ctx)] is Some {
            Some(ErrorView::Protocol("duplicate outstanding user_ctx"@))
        } else {
            None
        }
    }

    /// The poller after a work request was posted.
    pub open spec fn after_track(self, user_ctx: u64, sequence: Option<u64>, signaled: bool) -> Self {
        let slot = position_of(user_ctx);
        let table = grown(self.table, slot).update(
            slot,
            Some(OutstandingWr { user_ctx, sequence, signaled }),
        );
        match operation_of(user_ctx) {
            OperationType::Send => PollerView {
                table,
                send_order: self.send_order.push(user_ctx),
                stats: CompletionStats {
                    send_post: super::saturated(self.stats.send_post + 1),
                    max_outstanding_send: super::larger(
                        self.stats.max_outstanding_send,
                        super::saturated((self.send_order.len() + 1) as int),
                    ),
                    ..self.stats
                },
                ..self
            },
            OperationType::Recv => PollerView {
                table,
                receives: self.receives + 1,
                stats: CompletionStats {
                    recv_post: super::saturated(self.stats.recv_post + 1),
                    ..self.stats
                },
                ..self
            },
        }
    }

    /// Tracking a new work request keeps the invariant.
    pub proof fn lemma_track(self, user_ctx: u64, sequence: Option<u64>, signaled: bool)
        requires
            self.wf(),
            self.track_error(user_ctx) is None,
        ensures
            self.after_track(user_ctx, sequence, signaled).wf(),
    {
        let slot = position_of(user_ctx);
        let after = self.after_track(user_ctx, sequence, signaled);
        let room = grown(self.table, slot);
        let entry = Some(OutstandingWr { user_ctx, sequence, signaled });
        WrToken::of_user_ctx(user_ctx).slot.lemma_position();
        lemma_count_grown(self.table, slot, OperationType::Send);
        lemma_count_grown(self.table, slot, OperationType::Recv);
        lemma_count_update(room, slot, entry, OperationType::Send);
        lemma_count_update(room, slot, entry, OperationType::Recv);
        assert(room[slot] == None::<OutstandingWr>);
        assert forall|i: int|
            0 <= i < after.table.len() && #[trigger] after.table[i] is Some implies after.entry_ok(
            i,
        ) by {
            if i != slot {
                assert(i < self.table.len() && self.table[i] == after.table[i]);
                assert(self.entry_ok(i));
                let other = after.table[i]->0.user_ctx;
                if operation_of(other) == OperationType::Send {
                    let k = choose|k: int|
                        0 <= k < self.send_order.len() && self.send_order[k] == other;
                    assert(after.send_order[k] == other);
                }
            } else if operation_of(user_ctx) == OperationType::Send {
                assert(after.send_order[self.send_order.len() as int] == user_ctx);
            }
        }
        assert forall|k: int| 0 <= k < after.send_order.len() implies after.sends(
            #[trigger] after.send_order[k],
        ) by {
            if k < self.send_order.len() {
                let other = self.send_order[k];
                assert(self.sends(other));
                WrToken::of_user_ctx(other).slot.lemma_position();
                assert(position_of(other) != slot);
            }
        }
        assert forall|k: int| 0 <= k < self.send_order.len() implies self.send_order[k]
            != user_ctx by {
            assert(self.sends(self.send_order[k]));
        }
    }

    /// The poller after a receive was taken out of the table.
    pub open spec fn after_take_recv(self, user_ctx: u64) -> Self {
        PollerView {
            table: self.table.update(position_of(user_ctx), None),
            receives: (self.receives - 1) as nat,
            retired: self.retired.push(user_ctx),
            ..self
        }
    }

    /// The error that taking a work request out of the table fails with, if it fails.
    pub open spec fn take_error(self, user_ctx: u64) -> Option<ErrorView> {
        if position_of(user_ctx) >= self.table.len() {
            Some(ErrorView::Protocol("CQE slot is outside outstanding table"@))
        } else if !self.tracks(user_ctx) {
            Some(ErrorView::Protocol("CQE has no outstanding WR"@))
        } else {
            None
        }
    }

    /// The poller with one more failed completion counted.
    pub open spec fn with_cqe_error(self) -> Self {
        PollerView {
            stats: CompletionStats {
                cqe_error: super::saturated(self.stats.cqe_error + 1),
                ..self.stats
            },
            ..self
        }
    }

    /// The poller after a receive completed.
    pub open spec fn after_recv(self, sequence: Option<u64>) -> Self {
        PollerView {
            last_recv: if sequence is Some {
                sequence
            } else {
                self.last_recv
            },
            stats: CompletionStats {
                recv_cqe: super::saturated(self.stats.recv_cqe + 1),
                ..self.stats
            },
            ..self
        }
    }

    /// Taking an outstanding receive out keeps the invariant.
    pub proof fn lemma_take_recv(self, user_ctx: u64)
        requires
            self.wf(),
            self.take_error(user_ctx) is None,
            operation_of(user_ctx) == OperationType::Recv,
        ensures
            self.receives > 0,
            self.after_take_recv(user_ctx).wf(),
    {
        let slot = position_of(user_ctx);
        let after = self.after_take_recv(user_ctx);
        WrToken::of_user_ctx(user_ctx).slot.lemma_position();
        lemma_count_update(self.table, slot, None, OperationType::Send);
        lemma_count_update(self.table, slot, None, OperationType::Recv);
        assert forall|i: int|
            0 <= i < after.table.len() && #[trigger] after.table[i] is Some implies after.entry_ok(
            i,
        ) by {
            assert(self.table[i] == after.table[i]);
            assert(self.entry_ok(i));
        }
        assert forall|k: int| 0 <= k < after.send_order.len() implies after.sends(
            #[trigger] after.send_order[k],
        ) by {
            let other = self.send_order[k];
            assert(self.sends(other));
            assert(position_of(other) != slot) by {
                if position_of(other) == slot {
                    assert(self.table[slot]->0.user_ctx == other);
                }
            }
            WrToken::of_user_ctx(other).slot.lemma_position();
        }
    }
}

/// The poller and the pool that it completes work requests on.
#[verifier::ext_equal]
pub struct PlaneView {
    pub poller: PollerView,
    pub pool: PoolView,
}

impl PlaneView {
    /// Both invariants hold, and every slot with an outstanding work request is held by it: a slot
    /// of the right direction, in the posted state.
    pub open spec fn wf(self) -> bool {
        &&& self.poller.wf()
        &&& self.pool.wf()
        &&& forall|i: int|
            0 <= i < self.poller.table.len() && #[trigger] self.poller.table[i] is Some
                ==> self.held(i)
    }

    /// Whether the slot at `i` is in the posted state of its outstanding work request.
    pub open spec fn held(self, i: int) -> bool {
        let kind = kind_of(operation_of(self.poller.table[i]->0.user_ctx));
        &&& i < self.pool.states.len()
        &&& self.pool.kind(i) == kind
        &&& self.pool.states[i] == slots::posted_state(kind)
    }

    /// Both sides after the oldest outstanding send was retired.
    pub open spec fn retire_head(self) -> Self {
        let user_ctx = self.poller.send_order[0];
        let wr = self.poller.entry(user_ctx);
        PlaneView {
            poller: PollerView {
                table: self.poller.table.update(position_of(user_ctx), None),
                send_order: self.poller.send_order.drop_first(),
                last_send: if wr.sequence is Some {
                    wr.sequence
                } else {
                    self.poller.last_send
                },
                stats: CompletionStats {
                    send_retired: super::saturated(self.poller.stats.send_retired + 1),
                    ..self.poller.stats
                },
                retired: self.poller.retired.push(user_ctx),
                ..self.poller
            },
            pool: self.pool.after_release(WrToken::of_user_ctx(user_ctx).slot),
        }
    }

    /// Both sides after the `count` oldest outstanding sends were retired.
    pub open spec fn retire(self, count: nat) -> Self
        decreases count,
    {
        if count == 0 {
            self
        } else {
            self.retire((count - 1) as nat).retire_head()
        }
    }

    /// Retiring the oldest send keeps the invariant.
    pub proof fn lemma_retire_head(self)
        requires
            self.wf(),
            self.poller.send_order.len() > 0,
        ensures
            self.retire_head().wf(),
            self.poller.sends(self.poller.send_order[0]),
            self.pool.has(WrToken::of_user_ctx(self.poller.send_order[0]).slot),
            self.pool.state(WrToken::of_user_ctx(self.poller.send_order[0]).slot)
                == SlotState::SendPosted,
    {
        let user_ctx = self.poller.send_order[0];
        let id = WrToken::of_user_ctx(user_ctx).slot;
        let slot = position_of(user_ctx);
        let after = self.retire_head();
        id.lemma_position();
        assert(self.poller.sends(user_ctx));
        assert(self.poller.table[slot] is Some);
        assert(self.held(slot));
        self.pool.lemma_with_state(id, SlotState::SendCompleted);
        let completed = self.pool.with_state(id, SlotState::SendCompleted);
        completed.lemma_release(id);
        assert(completed.after_release(id) =~= self.pool.after_release(id));
        lemma_count_update(self.poller.table, slot, None, OperationType::Send);
        lemma_count_update(self.poller.table, slot, None, OperationType::Recv);
        let order = self.poller.send_order;
        assert forall|i: int|
            0 <= i < after.poller.table.len()
                && #[trigger] after.poller.table[i] is Some implies after.poller.entry_ok(i) by {
            assert(self.poller.table[i] == after.poller.table[i]);
            assert(self.poller.entry_ok(i));
            let other = after.poller.table[i]->0.user_ctx;
            if operation_of(other) == OperationType::Send {
                let k = choose|k: int| 0 <= k < order.len() && order[k] == other;
                assert(k > 0);
                assert(after.poller.send_order[k - 1] == other);
            }
        }
        assert forall|k: int| 0 <= k < after.poller.send_order.len() implies after.poller.sends(
            #[trigger] after.poller.send_order[k],
        ) by {
            let other = order[k + 1];
            assert(self.poller.sends(other));
            WrToken::of_user_ctx(other).slot.lemma_position();
            assert(other != user_ctx);
            assert(position_of(other) != slot) by {
                if position_of(other) == slot {
                    assert(self.poller.table[slot]->0.user_ctx == other);
                }
            }
        }
        assert forall|i: int|
            0 <= i < after.poller.table.len()
                && #[trigger] after.poller.table[i] is Some implies after.held(i) by {
            assert(self.poller.table[i] == after.poller.table[i]);
            assert(self.held(i));
        }
    }

    /// Retiring a prefix of the sends keeps the invariant.
    pub proof fn lemma_retire(self, count: nat)
        requires
            self.wf(),
            count <= self.poller.send_order.len(),
        ensures
            self.retire(count).wf(),
            self.retire(count).poller.send_order == self.poller.send_order.skip(count as int),
            self.retire(count).pool.config == self.pool.config,
            self.retire(count).poller.table.len() == self.poller.table.len(),
        decreases count,
    {
        if count == 0 {
            assert(self.poller.send_order.skip(0) =~= self.poller.send_order);
        } else {
            let before = self.retire((count - 1) as nat);
            self.lemma_retire((count - 1) as nat);
            before.lemma_retire_head();
            assert(before.poller.send_order.drop_first() =~= self.poller.send_order.skip(
                count as int,
            ));
        }
    }
}

/// What routing a completion gives: both sides after it, and the events or the error.
pub struct Routed {
    pub plane: PlaneView,
    pub outcome: core::result::Result<Seq<EventView>, ErrorView>,
}

/// The bytes that were read from a slot, or the error of the read.
pub open spec fn read_view(read: core::result::Result<Vec<u8>, crate::error::Error>) -> core::result::Result<
    Seq<u8>,
    ErrorView,
> {
    match read {
        Ok(bytes) => Ok(bytes@),
        Err(error) => Err(error@),
    }
}

impl PlaneView {
    /// The position of a send in the send order.
    pub open spec fn frontier(self, user_ctx: u64) -> int {
        self.poller.send_order.index_of(user_ctx)
    }

    /// The events of the `count` oldest sends.
    pub open spec fn send_events(self, count: nat) -> Seq<EventView> {
        Seq::new(
            count,
            |k: int|
                EventView::SendCompleted {
                    slot: WrToken::of_user_ctx(self.poller.send_order[k]).slot,
                },
        )
    }

    /// What a send completion does: it retires its own send and all earlier ones.
    pub open spec fn route_send(self, record: CompletionRecord) -> Routed {
        let user_ctx = record.user_ctx;
        if !self.poller.send_order.contains(user_ctx) {
            Routed {
                plane: self,
                outcome: Err(ErrorView::Protocol("SEND CQE has no ordered frontier"@)),
            }
        } else if record.status == 0 && !self.poller.entry(user_ctx).signaled {
            Routed {
                plane: self,
                outcome: Err(ErrorView::Protocol("SEND CQE corresponds to an unsignaled WR"@)),
            }
        } else {
            let count = (self.frontier(user_ctx) + 1) as nat;
            let counted = PlaneView {
                poller: PollerView {
                    stats: CompletionStats {
                        send_cqe: super::saturated(self.poller.stats.send_cqe + 1),
                        ..self.poller.stats
                    },
                    ..self.poller
                },
                ..self
            };
            let retired = counted.retire(count);
            if record.status == 0 {
                Routed { plane: retired, outcome: Ok(self.send_events(count)) }
            } else {
                Routed {
                    plane: PlaneView { poller: retired.poller.with_cqe_error(), ..retired },
                    outcome: Err(
                        super::completion_failure(record.status, record.opcode, user_ctx),
                    ),
                }
            }
        }
    }

    /// Both sides after a receive completion was taken in, before it is judged.
    pub open spec fn recv_taken(self, user_ctx: u64) -> Self {
        PlaneView { poller: self.poller.after_take_recv(user_ctx), ..self }
    }

    /// Both sides after a receive completion that failed: the slot is free again.
    pub open spec fn recv_failed(self, user_ctx: u64) -> Self {
        let taken = self.recv_taken(user_ctx);
        PlaneView {
            poller: taken.poller.with_cqe_error(),
            pool: taken.pool.after_release(WrToken::of_user_ctx(user_ctx).slot),
        }
    }

    /// The error of a receive completion itself, if it has one.
    pub open spec fn recv_record_error(record: CompletionRecord) -> Option<ErrorView> {
        if record.status != 0 {
            Some(super::completion_failure(record.status, record.opcode, record.user_ctx))
        } else if record.opcode != 0 {
            Some(
                ErrorView::Protocol(
                    "unexpected receive CQE opcode "@ + text::decimal(record.opcode as nat) + ""@,
                ),
            )
        } else {
            None
        }
    }

    /// What a receive completion does, where `read` gives the bytes of its slot.
    pub open spec fn route_recv(
        self,
        record: CompletionRecord,
        read: core::result::Result<Seq<u8>, ErrorView>,
    ) -> Routed {
        let user_ctx = record.user_ctx;
        let slot = WrToken::of_user_ctx(user_ctx).slot;
        let taken = self.recv_taken(user_ctx);
        if self.poller.take_error(user_ctx) is Some {
            Routed { plane: self, outcome: Err(self.poller.take_error(user_ctx)->0) }
        } else if Self::recv_record_error(record) is Some {
            Routed {
                plane: self.recv_failed(user_ctx),
                outcome: Err(Self::recv_record_error(record)->0),
            }
        } else if self.pool.recv_error(slot, record.completion_len as nat) is Some {
            Routed {
                plane: taken,
                outcome: Err(self.pool.recv_error(slot, record.completion_len as nat)->0),
            }
        } else if !self.pool.open {
            Routed { plane: taken, outcome: Err(slots::segment_closed()) }
        } else {
            match read {
                Err(error) => Routed { plane: taken, outcome: Err(error) },
                Ok(bytes) => Routed {
                    plane: PlaneView {
                        poller: taken.poller.after_recv(self.poller.entry(user_ctx).sequence),
                        pool: taken.pool.after_release(slot),
                    },
                    outcome: Ok(seq![EventView::RecvCompleted { slot, bytes }]),
                },
            }
        }
    }

    /// What a completion from the send or the receive queue does.
    #[verifier::opaque]
    pub open spec fn route(
        self,
        record: CompletionRecord,
        recv_queue: bool,
        read: core::result::Result<Seq<u8>, ErrorView>,
    ) -> Routed {
        let token = WrToken::of_user_ctx(record.user_ctx);
        let counted = PlaneView { poller: self.poller.with_cqe_error(), ..self };
        if !record.user_ctx_valid {
            Routed {
                plane: counted,
                outcome: Err(super::completion_failure(record.status, record.opcode, 0)),
            }
        } else if WrToken::decode_error(record.user_ctx) is Some {
            Routed { plane: self, outcome: Err(WrToken::decode_error(record.user_ctx)->0) }
        } else if token.connection_id != self.poller.connection_id || token.generation
            != self.poller.generation {
            Routed {
                plane: self,
                outcome: Err(ErrorView::Protocol("stale or foreign CQE user_ctx"@)),
            }
        } else if (token.operation == OperationType::Recv) != recv_queue || record.is_recv
            != recv_queue || !record.is_jetty {
            Routed {
                plane: counted,
                outcome: Err(ErrorView::Protocol("CQE queue/operation flags disagree"@)),
            }
        } else {
            match token.operation {
                OperationType::Send => self.route_send(record),
                OperationType::Recv => self.route_recv(record, read),
            }
        }
    }

    /// Taking in a receive completion keeps the invariant.
    pub proof fn lemma_recv_taken(self, user_ctx: u64)
        requires
            self.wf(),
            self.poller.take_error(user_ctx) is None,
            operation_of(user_ctx) == OperationType::Recv,
        ensures
            self.recv_taken(user_ctx).wf(),
            self.pool.has(WrToken::of_user_ctx(user_ctx).slot),
            self.pool.kind(position_of(user_ctx)) == SlotKind::Rx,
            self.pool.state(WrToken::of_user_ctx(user_ctx).slot) == SlotState::PostedRecv,
    {
        let after = self.recv_taken(user_ctx);
        WrToken::of_user_ctx(user_ctx).slot.lemma_position();
        self.poller.lemma_take_recv(user_ctx);
        assert(self.poller.table[position_of(user_ctx)] is Some);
        assert(self.held(position_of(user_ctx)));
        assert forall|i: int|
            0 <= i < after.poller.table.len()
                && #[trigger] after.poller.table[i] is Some implies after.held(i) by {
            assert(self.poller.table[i] == after.poller.table[i]);
            assert(self.held(i));
        }
    }

    /// A change to a slot that no outstanding work request holds keeps the invariant.
    pub proof fn lemma_pool_change(self, pool: PoolView, index: int)
        requires
            self.wf(),
            pool.wf(),
            pool.config == self.pool.config,
            pool.states.len() == self.pool.states.len(),
            forall|i: int|
                0 <= i < pool.states.len() && i != index ==> #[trigger] pool.states[i]
                    == self.pool.states[i],
            index < 0 || index >= self.poller.table.len() || self.poller.table[index] is None,
        ensures
            (PlaneView { pool, ..self }).wf(),
    {
        let after = PlaneView { pool, ..self };
        assert forall|i: int|
            0 <= i < after.poller.table.len()
                && #[trigger] after.poller.table[i] is Some implies after.held(i) by {
            assert(self.held(i));
        }
    }
}

/// Key order of two outstanding work requests: untracked ones first, then by sequence, then by slot.
pub open spec fn pending_before(left: super::PendingWrSnapshot, right: super::PendingWrSnapshot) -> bool {
    match (left.sequence, right.sequence) {
        (None, Some(_)) => true,
        (Some(_), None) => false,
        (None, None) => left.slot.position() < right.slot.position(),
        (Some(l), Some(r)) => l < r || (l == r && left.slot.position() < right.slot.position()),
    }
}

impl PlaneView {
    /// The outstanding work request on the slot at `i`, for diagnosis.
    pub open spec fn pending_at(self, i: int) -> super::PendingWrSnapshot {
        let wr = self.poller.table[i]->0;
        let slot = WrToken::of_user_ctx(wr.user_ctx).slot;
        super::PendingWrSnapshot {
            sequence: wr.sequence,
            slot,
            state: if self.pool.has(slot) {
                self.pool.state(slot)
            } else {
                SlotState::Free
            },
        }
    }

    /// Whether `pending` lists the outstanding work requests of an operation in key order.
    pub open spec fn lists_pending(
        self,
        operation: OperationType,
        pending: Seq<super::PendingWrSnapshot>,
    ) -> bool {
        &&& forall|a: int, b: int|
            0 <= a < b < pending.len() ==> #[trigger] pending_before(pending[a], pending[b])
        &&& forall|i: int|
            0 <= i < self.poller.table.len() && is_entry(#[trigger] self.poller.table[i], operation)
                ==> pending.contains(self.pending_at(i))
        &&& forall|k: int|
            0 <= k < pending.len() ==> exists|i: int|
                0 <= i < self.poller.table.len() && is_entry(
                    #[trigger] self.poller.table[i],
                    operation,
                ) && self.pending_at(i) == #[trigger] pending[k]
    }

    /// The error of a directly consumed receive completion before it is matched with a work
    /// request, if it has one, and whether it counts as a failed completion.
    pub open spec fn direct_error(self, record: CompletionRecord) -> Option<(ErrorView, bool)> {
        let token = WrToken::of_user_ctx(record.user_ctx);
        if !record.user_ctx_valid {
            Some((super::completion_failure(record.status, record.opcode, 0), true))
        } else if WrToken::decode_error(record.user_ctx) is Some {
            Some((WrToken::decode_error(record.user_ctx)->0, false))
        } else if token.connection_id != self.poller.connection_id || token.generation
            != self.poller.generation || token.operation != OperationType::Recv || !record.is_recv
            || !record.is_jetty {
            Some(
                (
                    ErrorView::Protocol("direct receive CQE identity/queue flags disagree"@),
                    true,
                ),
            )
        } else if self.poller.take_error(record.user_ctx) is Some {
            Some((self.poller.take_error(record.user_ctx)->0, false))
        } else {
            None
        }
    }

    /// Both sides after a directly consumed receive completion, where `consumed` says how the
    /// consumer fared with the bytes, or that they could not be lent to it.
    pub open spec fn route_direct(
        self,
        record: CompletionRecord,
        consumed: core::result::Result<core::result::Result<(), ErrorView>, ErrorView>,
    ) -> (PlaneView, core::result::Result<(), ErrorView>) {
        let user_ctx = record.user_ctx;
        let slot = WrToken::of_user_ctx(user_ctx).slot;
        let taken = self.recv_taken(user_ctx);
        if let Some((error, counts)) = self.direct_error(record) {
            if counts {
                (PlaneView { poller: self.poller.with_cqe_error(), ..self }, Err(error))
            } else {
                (self, Err(error))
            }
        } else if Self::recv_record_error(record) is Some {
            (self.recv_failed(user_ctx), Err(Self::recv_record_error(record)->0))
        } else if self.pool.recv_error(slot, record.completion_len as nat) is Some
            || !self.pool.open || consumed is Err {
            // The slot is still posted, so releasing it is refused.
            (taken, Err(self.pool.release_error(slot)->0))
        } else {
            let released = PlaneView { pool: taken.pool.after_release(slot), ..taken };
            match consumed->Ok_0 {
                Err(error) => (released, Err(error)),
                Ok(()) => (
                    PlaneView {
                        poller: released.poller.after_recv(self.poller.entry(user_ctx).sequence),
                        ..released
                    },
                    Ok(()),
                ),
            }
        }
    }

    /// Both sides after a receive completion whose bytes stay in the slot.
    pub open spec fn route_leased(self, record: CompletionRecord) -> (
        PlaneView,
        core::result::Result<super::CompletedRecv, ErrorView>,
    ) {
        let user_ctx = record.user_ctx;
        let slot = WrToken::of_user_ctx(user_ctx).slot;
        let taken = self.recv_taken(user_ctx);
        if let Some((error, counts)) = self.direct_error(record) {
            if counts {
                (PlaneView { poller: self.poller.with_cqe_error(), ..self }, Err(error))
            } else {
                (self, Err(error))
            }
        } else if Self::recv_record_error(record) is Some {
            (self.recv_failed(user_ctx), Err(Self::recv_record_error(record)->0))
        } else if self.pool.recv_error(slot, record.completion_len as nat) is Some {
            (taken, Err(self.pool.recv_error(slot, record.completion_len as nat)->0))
        } else {
            (
                PlaneView {
                    poller: taken.poller.after_recv(self.poller.entry(user_ctx).sequence),
                    pool: taken.pool.with_state(slot, SlotState::RecvCompleted),
                },
                Ok(
                    super::CompletedRecv {
                        slot,
                        sequence: self.poller.entry(user_ctx).sequence,
                        length: record.completion_len,
                    },
                ),
            )
        }
    }

    /// Changing counters keeps the invariant.
    pub proof fn lemma_counters(self, poller: PollerView)
        requires
            self.wf(),
            poller.table == self.poller.table,
            poller.send_order == self.poller.send_order,
            poller.receives == self.poller.receives,
        ensures
            (PlaneView { poller, ..self }).wf(),
    {
        let after = PlaneView { poller, ..self };
        assert forall|i: int|
            0 <= i < after.poller.table.len()
                && #[trigger] after.poller.table[i] is Some implies after.poller.entry_ok(i)
            && after.held(i) by {
            assert(self.poller.entry_ok(i));
            assert(self.held(i));
        }
        assert forall|k: int| 0 <= k < after.poller.send_order.len() implies after.poller.sends(
            #[trigger] after.poller.send_order[k],
        ) by {
            assert(self.poller.sends(self.poller.send_order[k]));
        }
    }

    /// Routing a completion keeps the invariant.
    pub proof fn lemma_route(
        self,
        record: CompletionRecord,
        recv_queue: bool,
        read: core::result::Result<Seq<u8>, ErrorView>,
    )
        requires
            self.wf(),
        ensures
            self.route(record, recv_queue, read).plane.wf(),
            self.route(record, recv_queue, read).plane.poller.table.len()
                == self.poller.table.len(),
    {
        let user_ctx = record.user_ctx;
        let slot = WrToken::of_user_ctx(user_ctx).slot;
        let order = self.poller.send_order;
        reveal(PlaneView::route);
        self.lemma_counters(self.poller.with_cqe_error());
        if operation_of(user_ctx) == OperationType::Send {
            if order.contains(user_ctx) {
                let counted_poller = PollerView {
                    stats: CompletionStats {
                        send_cqe: super::saturated(self.poller.stats.send_cqe + 1),
                        ..self.poller.stats
                    },
                    ..self.poller
                };
                let counted = PlaneView { poller: counted_poller, ..self };
                let count = (self.frontier(user_ctx) + 1) as nat;
                self.lemma_counters(counted_poller);
                assert(order[order.index_of(user_ctx)] == user_ctx);
                counted.lemma_retire(count);
                let retired = counted.retire(count);
                retired.lemma_counters(retired.poller.with_cqe_error());
            }
        } else if self.poller.take_error(user_ctx) is None {
            let taken = self.recv_taken(user_ctx);
            self.lemma_recv_taken(user_ctx);
            let completed = taken.pool.with_state(slot, SlotState::RecvCompleted);
            taken.pool.lemma_with_state(slot, SlotState::RecvCompleted);
            completed.lemma_release(slot);
            assert(completed.after_release(slot) =~= taken.pool.after_release(slot));
            let released = PlaneView { pool: taken.pool.after_release(slot), ..taken };
            taken.lemma_pool_change(released.pool, slot.position() as int);
            released.lemma_counters(released.poller.with_cqe_error());
            released.lemma_counters(
                released.poller.after_recv(self.poller.entry(user_ctx).sequence),
            );
        }
    }

    /// What routing a batch of completions does: up to the first that fails.
    pub open spec fn route_all(
        self,
        records: Seq<CompletionRecord>,
        recv_queue: bool,
        reads: Seq<core::result::Result<Seq<u8>, ErrorView>>,
    ) -> Routed
        decreases records.len(),
    {
        if records.len() == 0 {
            Routed { plane: self, outcome: Ok(Seq::empty()) }
        } else {
            let earlier = self.route_all(records.drop_last(), recv_queue, reads);
            match earlier.outcome {
                Err(_) => earlier,
                Ok(events) => {
                    let last = earlier.plane.route(
                        records.last(),
                        recv_queue,
                        reads[records.len() - 1],
                    );
                    Routed {
                        plane: last.plane,
                        outcome: match last.outcome {
                            Err(error) => Err(error),
                            Ok(more) => Ok(events + more),
                        },
                    }
                },
            }
        }
    }

    /// Once a completion fails, the later ones are not routed.
    pub proof fn lemma_route_all_stops(
        self,
        records: Seq<CompletionRecord>,
        recv_queue: bool,
        reads: Seq<core::result::Result<Seq<u8>, ErrorView>>,
        few: int,
    )
        requires
            0 <= few <= records.len(),
            self.route_all(records.take(few), recv_queue, reads).outcome is Err,
        ensures
            self.route_all(records, recv_queue, reads) == self.route_all(
                records.take(few),
                recv_queue,
                reads,
            ),
        decreases records.len(),
    {
        if few < records.len() {
            assert(records.drop_last().take(few) =~= records.take(few));
            self.lemma_route_all_stops(records.drop_last(), recv_queue, reads, few);
        } else {
            assert(records.take(few) =~= records);
        }
    }
}

impl PollerView {
    /// The poller after one poll began at `now`.
    pub open spec fn after_begin(self, now: u128) -> Self {
        PollerView {
            last_poll: Some(now),
            stats: CompletionStats {
                poll_calls: super::saturated(self.stats.poll_calls + 1),
                ..self.stats
            },
            ..self
        }
    }

    /// The poller after one queue was polled and gave `count` records.
    pub open spec fn after_queue_poll(self, recv_queue: bool, count: nat) -> Self {
        let empty = if count == 0 {
            1int
        } else {
            0int
        };
        PollerView {
            stats: if recv_queue {
                CompletionStats {
                    recv_jfc_poll_calls: super::saturated(self.stats.recv_jfc_poll_calls + 1),
                    recv_jfc_empty_polls: super::saturated(self.stats.recv_jfc_empty_polls + empty),
                    ..self.stats
                }
            } else {
                CompletionStats {
                    send_jfc_poll_calls: super::saturated(self.stats.send_jfc_poll_calls + 1),
                    send_jfc_empty_polls: super::saturated(self.stats.send_jfc_empty_polls + empty),
                    ..self.stats
                }
            },
            ..self
        }
    }

    /// The poller after a poll that gave `count` completions at `now`.
    pub open spec fn after_nonempty(self, count: nat, previous: Option<u128>, now: u128) -> Self {
        let gap = match previous {
            Some(last) => super::larger(
                self.stats.max_completion_poll_gap_ns,
                super::saturated(
                    if now >= last {
                        now - last
                    } else {
                        0
                    },
                ),
            ),
            None => self.stats.max_completion_poll_gap_ns,
        };
        PollerView {
            empty_streak: 0,
            stats: CompletionStats {
                nonempty_polls: super::saturated(self.stats.nonempty_polls + 1),
                completion_batch_total: super::saturated(self.stats.completion_batch_total + count),
                max_completion_poll_gap_ns: gap,
                ..self.stats
            },
            ..self
        }
    }

    /// The poller after one more empty poll in a row.
    pub open spec fn after_empty(self) -> Self {
        let streak = super::saturated(self.empty_streak + 1);
        PollerView {
            empty_streak: streak,
            stats: CompletionStats {
                max_empty_streak: super::larger(self.stats.max_empty_streak, streak),
                ..self.stats
            },
            ..self
        }
    }

    /// The poller with one more empty poll counted.
    pub open spec fn with_empty_poll(self) -> Self {
        PollerView {
            stats: CompletionStats {
                empty_polls: super::saturated(self.stats.empty_polls + 1),
                ..self.stats
            },
            ..self
        }
    }

    /// The number of outstanding work requests.
    pub open spec fn outstanding(self) -> nat {
        self.send_order.len() + self.receives
    }

    /// The poller after a queue was armed.
    pub open spec fn after_arm(self, recv_queue: bool) -> Self {
        PollerView {
            send_armed: self.send_armed || !recv_queue,
            recv_armed: self.recv_armed || recv_queue,
            stats: CompletionStats {
                jfc_rearm_count: super::saturated(self.stats.jfc_rearm_count + 1),
                ..self.stats
            },
            ..self
        }
    }

    /// The poller after a wait for an event.
    pub open spec fn after_wait(self, elapsed: u64, ready: Option<crate::provider::JfcEventReady>) -> Self {
        let waited = CompletionStats {
            event_wait_count: super::saturated(self.stats.event_wait_count + 1),
            event_wait_ns: super::saturated(self.stats.event_wait_ns + elapsed),
            max_event_wait_ns: super::larger(self.stats.max_event_wait_ns, elapsed),
            ..self.stats
        };
        match ready {
            None => PollerView {
                stats: CompletionStats {
                    event_timeout_count: super::saturated(waited.event_timeout_count + 1),
                    empty_polls: super::saturated(waited.empty_polls + 1),
                    ..waited
                },
                ..self
            },
            Some(ready) => PollerView {
                send_armed: self.send_armed && !ready.send,
                recv_armed: self.recv_armed && !ready.recv,
                stats: CompletionStats {
                    event_wakeup_count: super::saturated(waited.event_wakeup_count + 1),
                    ..waited
                },
                ..self
            },
        }
    }

    /// The poller after the polls that follow an event gave `count` completions.
    pub open spec fn after_event(self, count: nat, previous: Option<u128>, now: u128) -> Self {
        if count == 0 {
            PollerView {
                stats: CompletionStats {
                    spurious_wakeup_count: super::saturated(self.stats.spurious_wakeup_count + 1),
                    empty_polls: super::saturated(self.stats.empty_polls + 1),
                    ..self.stats
                },
                ..self
            }
        } else {
            self.after_nonempty(count, previous, now)
        }
    }

    /// The poller after `count` work requests were handed to the provider in one call.
    pub open spec fn after_post_call(self, operation: OperationType, count: u64) -> Self {
        PollerView {
            stats: match operation {
                OperationType::Send => CompletionStats {
                    send_post_calls: super::saturated(self.stats.send_post_calls + 1),
                    send_post_list_max: super::larger(self.stats.send_post_list_max, count),
                    ..self.stats
                },
                OperationType::Recv => CompletionStats {
                    recv_post_calls: super::saturated(self.stats.recv_post_calls + 1),
                    recv_post_list_max: super::larger(self.stats.recv_post_list_max, count),
                    ..self.stats
                },
            },
            ..self
        }
    }
}

} // verus!
