//! Posting receives and sends: which slots they take, what the provider is handed, and what its
//! answer does to the pool, to the outstanding work requests and to the receive credit.

use vstd::prelude::*;

use super::{ConnectionState, ConnectionView, UrmaConnection};
use crate::buffer::model as slot_model;
use crate::buffer::pool;
use crate::buffer::{PoolView, SlotId, SlotKind, SlotState};
use crate::completion::model as table_model;
use crate::completion::{PlaneView, PollerView};
use crate::error::{invalid, protocol, Error, ErrorView, Result};
use crate::provider::{map_ffi_error, FfiError, PostBatch, WrDescriptor};
use crate::wr;
use crate::wr::{OperationType, WrToken};

verus! {

/// What became of one send.
#[derive(Clone, Copy, Debug, Eq, PartialEq)]
pub enum SendOutcome {
    /// Writing the message into its slot failed.
    WriteFailed(FfiError),
    /// The provider refused the work request.
    PostFailed(FfiError),
    Posted,
}

/// The sequence of the message at `k` of a run, where sequences are kept.
pub open spec fn sequence_at(base: Option<u64>, k: int) -> Option<u64> {
    match base {
        None => None,
        Some(first) => Some((first + k) as u64),
    }
}

/// The larger credit, up to what a counter holds.
pub open spec fn credited(credit: nat, count: nat) -> nat {
    if credit + count <= usize::MAX {
        credit + count
    } else {
        usize::MAX as nat
    }
}

impl PollerView {
    /// The poller after the first `count` of the work requests were accepted.
    pub open spec fn after_tracks(
        self,
        descriptors: Seq<WrDescriptor>,
        base: Option<u64>,
        count: nat,
    ) -> Self
        decreases count,
    {
        if count == 0 {
            self
        } else {
            self.after_tracks(descriptors, base, (count - 1) as nat).after_track(
                descriptors[count - 1].user_ctx,
                sequence_at(base, count - 1),
                descriptors[count - 1].complete_enable,
            )
        }
    }
}

impl PlaneView {
    /// Whether no outstanding work request holds one of the slots.
    pub open spec fn unused(self, slots: Seq<SlotId>) -> bool {
        forall|k: int|
            0 <= k < slots.len() ==> (#[trigger] slots[k]).position() >= self.poller.table.len()
                || self.poller.table[slots[k].position() as int] is None
    }

    /// Slots that are not posted are not held.
    pub proof fn lemma_unused(self, slots: Seq<SlotId>, kind: SlotKind, state: SlotState)
        requires
            self.wf(),
            self.pool.holds(slots, kind, state),
            state != slot_model::posted_state(kind),
        ensures
            self.unused(slots),
    {
        assert forall|k: int| 0 <= k < slots.len() implies (#[trigger] slots[k]).position()
            >= self.poller.table.len() || self.poller.table[slots[k].position() as int] is None by {
            let i = slots[k].position() as int;
            assert(self.pool.state(slots[k]) == state);
            if i < self.poller.table.len() && self.poller.table[i] is Some {
                assert(self.held(i));
            }
        }
    }

    /// A change to slots that are not held keeps the invariant.
    pub proof fn lemma_pool_changes(self, pool: PoolView, slots: Seq<SlotId>)
        requires
            self.wf(),
            pool.wf(),
            pool.differs_at(self.pool, slots),
            self.unused(slots),
        ensures
            (PlaneView { pool, ..self }).wf(),
    {
        let after = PlaneView { pool, ..self };
        assert forall|i: int|
            0 <= i < after.poller.table.len()
                && #[trigger] after.poller.table[i] is Some implies after.held(i) by {
            assert(self.held(i));
            let id = SlotId::at(i as usize);
            id.lemma_position();
            if slots.contains(id) {
                let k = choose|k: int| 0 <= k < slots.len() && slots[k] == id;
                assert(slots[k].position() == i);
            }
            assert(pool.states[i] == self.pool.states[i]);
        }
    }

    /// Whether the work requests are on these slots, and can be told apart.
    pub open spec fn on_slots(
        descriptors: Seq<WrDescriptor>,
        operation: OperationType,
        slots: Seq<SlotId>,
    ) -> bool {
        &&& descriptors.len() == slots.len()
        &&& forall|k: int|
            0 <= k < slots.len() ==> {
                let user_ctx = (#[trigger] descriptors[k]).user_ctx;
                &&& WrToken::decode_error(user_ctx) is None
                &&& WrToken::of_user_ctx(user_ctx).operation == operation
                &&& WrToken::of_user_ctx(user_ctx).slot == slots[k]
            }
    }

    /// Tracking work requests on posted slots keeps the invariant.
    pub proof fn lemma_tracks(
        self,
        operation: OperationType,
        slots: Seq<SlotId>,
        descriptors: Seq<WrDescriptor>,
        base: Option<u64>,
        count: nat,
    )
        requires
            self.wf(),
            self.unused(slots),
            self.pool.holds(
                slots,
                table_model::kind_of(operation),
                slot_model::posted_state(table_model::kind_of(operation)),
            ),
            Self::on_slots(descriptors, operation, slots),
            count <= slots.len(),
        ensures
            ({
                let poller = self.poller.after_tracks(descriptors, base, count);
                &&& (PlaneView { poller, ..self }).wf()
                &&& (PlaneView { poller, ..self }).unused(slots.skip(count as int))
                &&& poller.connection_id == self.poller.connection_id
                &&& poller.generation == self.poller.generation
                &&& count < slots.len() ==> poller.track_error(descriptors[count as int].user_ctx) is None
            }),
        decreases count,
    {
        let kind = table_model::kind_of(operation);
        let poller = self.poller.after_tracks(descriptors, base, count);
        let after = PlaneView { poller, ..self };
        if count == 0 {
            assert(slots.skip(0) =~= slots);
        } else {
            let last = count - 1;
            let fewer = last as nat;
            self.lemma_tracks(operation, slots, descriptors, base, fewer);
            let earlier = self.poller.after_tracks(descriptors, base, fewer);
            let user_ctx = descriptors[last].user_ctx;
            let slot = slots[last].position() as int;
            earlier.lemma_track(
                user_ctx,
                sequence_at(base, last),
                descriptors[last].complete_enable,
            );
            slots[last].lemma_position();
            assert(self.pool.state(slots[last]) == slot_model::posted_state(kind));
            assert forall|i: int|
                0 <= i < poller.table.len() && #[trigger] poller.table[i] is Some implies after.held(
                i,
            ) by {
                if i != slot {
                    assert(i < earlier.table.len() && earlier.table[i] == poller.table[i]);
                    assert((PlaneView { poller: earlier, ..self }).held(i));
                }
            }
            assert(after.unused(slots.skip(count as int))) by {
                let rest = slots.skip(count as int);
                let wider = slots.skip(last);
                assert forall|k: int| 0 <= k < rest.len() implies (
                #[trigger] rest[k]).position() >= poller.table.len()
                    || poller.table[rest[k].position() as int] is None by {
                    assert(rest[k] == wider[k + 1]);
                    assert(rest[k] == slots[k + count]);
                    assert(rest[k] != slots[last]);
                    rest[k].lemma_position();
                    assert(rest[k].position() != slot);
                }
            }
        }
        if count < slots.len() {
            let rest = slots.skip(count as int);
            assert(rest[0] == slots[count as int]);
            assert(WrToken::of_user_ctx(descriptors[count as int].user_ctx).slot == rest[0]);
        }
    }
}

impl ConnectionView {
    /// The same connection with another pool.
    pub open spec fn with_pool(self, pool: PoolView) -> Self {
        ConnectionView { plane: PlaneView { pool, ..self.plane }, ..self }
    }

    /// The `user_ctx` of an operation on a slot.
    pub open spec fn user_ctx(self, operation: OperationType, slot: SlotId) -> u64 {
        self.token(operation, slot).user_ctx() as u64
    }

    /// The token of an operation on a slot.
    pub open spec fn token(self, operation: OperationType, slot: SlotId) -> WrToken {
        WrToken {
            connection_id: self.plane.poller.connection_id,
            generation: self.plane.poller.generation,
            operation,
            slot,
        }
    }

    /// Whether a slot lies too far to fit in a `user_ctx`.
    pub open spec fn unencodable(slots: Seq<SlotId>) -> bool {
        exists|k: int| 0 <= k < slots.len() && (#[trigger] slots[k]).position() > u32::MAX
    }

    /// The work requests that receive into these slots.
    pub open spec fn recv_descriptors(self, slots: Seq<SlotId>) -> Seq<WrDescriptor> {
        Seq::new(
            slots.len(),
            |k: int|
                WrDescriptor {
                    offset: self.plane.pool.offset(slots[k].position() as int) as u64,
                    length: self.plane.pool.config.slot_size as u32,
                    user_ctx: self.user_ctx(OperationType::Recv, slots[k]),
                    complete_enable: true,
                },
        )
    }

    /// Both sides after the provider accepted the first `accepted` work requests on allocated
    /// slots: those are outstanding, the other slots are free again.
    pub open spec fn posted(
        self,
        allocated: PoolView,
        operation: OperationType,
        slots: Seq<SlotId>,
        descriptors: Seq<WrDescriptor>,
        base: Option<u64>,
        accepted: nat,
    ) -> PlaneView {
        let kind = table_model::kind_of(operation);
        PlaneView {
            poller: self.plane.poller.after_post_call(
                operation,
                descriptors.len() as u64,
            ).after_tracks(descriptors, base, accepted),
            pool: allocated.after_posts(slots, kind).after_recycled_slots(
                slots.skip(accepted as int),
            ),
        }
    }

    /// Why a batch of receives is refused before the provider is asked, and the pool after that, if
    /// it is refused.
    pub open spec fn recv_batch_refusal(self, first: u64, count: nat) -> Option<
        (ErrorView, PoolView),
    > {
        let pool = self.plane.pool;
        let slots = pool.allocations(SlotKind::Rx, count);
        let abandoned = pool.after_allocations(SlotKind::Rx, count).after_recycled_slots(slots);
        let no_slot = ErrorView::InvalidConfiguration("no free RX slot"@);
        if self.state != ConnectionState::Bound && self.state != ConnectionState::Ready {
            Some((self.state_error("post receive batch"@), pool))
        } else if first + (count - 1) > u64::MAX {
            Some((ErrorView::Protocol("RECV sequence overflow"@), pool))
        } else if !pool.accepting || pool.free_rx.len() == 0 {
            Some((no_slot, pool))
        } else if pool.config.slot_size > u32::MAX {
            Some(
                (
                    ErrorView::InvalidConfiguration("slot size exceeds u32"@),
                    pool.after_allocate(SlotKind::Rx).after_release(SlotId::at(pool.free_rx[0])),
                ),
            )
        } else if count > pool.free_rx.len() {
            Some((no_slot, pool))
        } else if Self::unencodable(slots) {
            Some((ErrorView::InvalidConfiguration("slot id exceeds 32 bits"@), abandoned))
        } else if !pool.open {
            Some((slot_model::segment_closed(), abandoned))
        } else {
            None
        }
    }

    /// The connection after a batch of receives that was not refused, for the provider's answer, and
    /// what the batch gives.
    pub open spec fn recv_batch(
        self,
        first: u64,
        count: nat,
        answer: core::result::Result<PostBatch, FfiError>,
    ) -> (Self, core::result::Result<usize, ErrorView>) {
        let pool = self.plane.pool;
        let slots = pool.allocations(SlotKind::Rx, count);
        let allocated = pool.after_allocations(SlotKind::Rx, count);
        match answer {
            Err(failure) => (
                self.with_pool(allocated.after_recycled_slots(slots)),
                Err(failure.mapped("post_jetty_recv_wr_batch"@)),
            ),
            Ok(batch) => (
                ConnectionView {
                    plane: self.posted(
                        allocated,
                        OperationType::Recv,
                        slots,
                        self.recv_descriptors(slots),
                        Some(first),
                        batch.posted as nat,
                    ),
                    credit: credited(self.credit, batch.posted as nat),
                    credit_started: self.credit_started || batch.posted > 0,
                    ..self
                },
                if batch.status != 0 {
                    Err(
                        ErrorView::Native {
                            operation: "post_jetty_recv_wr_batch"@,
                            status: batch.status,
                        },
                    )
                } else if batch.posted != count {
                    Err(ErrorView::Protocol("successful RECV batch did not post every WR"@))
                } else {
                    Ok(batch.posted)
                },
            ),
        }
    }

    /// Why one receive is refused before the provider is asked, and the pool after that, if it is
    /// refused. A slot that was taken stays taken.
    pub open spec fn recv_refusal(self) -> Option<(ErrorView, PoolView)> {
        let pool = self.plane.pool;
        let slot = SlotId::at(pool.free_rx[0]);
        let taken = pool.after_allocate(SlotKind::Rx);
        if self.state != ConnectionState::Bound && self.state != ConnectionState::Ready {
            Some((self.state_error("post receive"@), pool))
        } else if !pool.accepting || pool.free_rx.len() == 0 {
            Some((ErrorView::InvalidConfiguration("no free RX slot"@), pool))
        } else if pool.config.slot_size > u32::MAX {
            Some((ErrorView::InvalidConfiguration("slot size exceeds u32"@), taken))
        } else if slot.position() > u32::MAX {
            Some((ErrorView::InvalidConfiguration("slot id exceeds 32 bits"@), taken))
        } else if !pool.open {
            Some((slot_model::segment_closed(), taken.with_state(slot, SlotState::PostedRecv)))
        } else {
            None
        }
    }

    /// The connection after one receive that was not refused, for the provider's answer, and what
    /// it gives.
    pub open spec fn recv_one(
        self,
        sequence: Option<u64>,
        answer: core::result::Result<(), FfiError>,
    ) -> (Self, core::result::Result<(), ErrorView>) {
        let pool = self.plane.pool;
        let slots = pool.allocations(SlotKind::Rx, 1);
        let allocated = pool.after_allocations(SlotKind::Rx, 1);
        match answer {
            Err(failure) => (
                self.with_pool(allocated.after_recycled_slots(slots)),
                Err(failure.mapped("post_jetty_recv_wr"@)),
            ),
            Ok(()) => (
                ConnectionView {
                    plane: self.posted(
                        allocated,
                        OperationType::Recv,
                        slots,
                        self.recv_descriptors(slots),
                        sequence,
                        1,
                    ),
                    credit: credited(self.credit, 1),
                    credit_started: true,
                    ..self
                },
                Ok(()),
            ),
        }
    }

    /// The sends since the last one that asks for a completion, before the message at `k` of a batch
    /// of `n`.
    pub open spec fn since_at(self, n: nat, k: nat) -> nat
        decreases k,
    {
        if k == 0 {
            self.since
        } else if k == n || self.since_at(n, (k - 1) as nat) + 1 >= self.interval {
            0
        } else {
            self.since_at(n, (k - 1) as nat) + 1
        }
    }

    /// Whether the message at `k` of a batch of `n` asks for a completion. The last one always
    /// does: a batch is drained before its range is filled again.
    pub open spec fn signaled(self, n: nat, k: nat) -> bool {
        k + 1 == n || self.since_at(n, k) + 1 >= self.interval
    }

    /// The work requests that send a prepared batch.
    pub open spec fn send_descriptors(self, layouts: Seq<(SlotId, u64, u32)>) -> Seq<WrDescriptor> {
        Seq::new(
            layouts.len(),
            |k: int|
                WrDescriptor {
                    offset: layouts[k].1,
                    length: layouts[k].2,
                    user_ctx: self.user_ctx(OperationType::Send, layouts[k].0),
                    complete_enable: self.signaled(layouts.len(), k as nat),
                },
        )
    }

    /// Why a prepared batch is refused before the provider is asked, if it is refused. Its slots are
    /// free again then.
    pub open spec fn send_batch_refusal(self, layouts: Seq<(SlotId, u64, u32)>, first: u64) -> Option<
        ErrorView,
    > {
        if self.require_error(ConnectionState::Ready) is Some {
            self.require_error(ConnectionState::Ready)
        } else if layouts.len() > 0 && first + (layouts.len() - 1) > u64::MAX {
            Some(ErrorView::Protocol("SEND sequence overflow"@))
        } else if Self::unencodable(pool::batch_slots(layouts)) {
            Some(ErrorView::InvalidConfiguration("slot id exceeds 32 bits"@))
        } else if !self.plane.pool.open {
            Some(slot_model::segment_closed())
        } else {
            None
        }
    }

    /// The connection after a prepared batch that was not refused, for the provider's answer, and
    /// what the batch gives.
    pub open spec fn send_batch(
        self,
        layouts: Seq<(SlotId, u64, u32)>,
        first: u64,
        answer: core::result::Result<PostBatch, FfiError>,
    ) -> (Self, core::result::Result<usize, ErrorView>) {
        let slots = pool::batch_slots(layouts);
        match answer {
            Err(failure) => (
                self.with_pool(self.plane.pool.after_recycled_slots(slots)),
                Err(failure.mapped("post_jetty_send_wr_batch"@)),
            ),
            Ok(batch) => (
                ConnectionView {
                    plane: self.posted(
                        self.plane.pool,
                        OperationType::Send,
                        slots,
                        self.send_descriptors(layouts),
                        Some(first),
                        batch.posted as nat,
                    ),
                    since: self.since_at(layouts.len(), batch.posted as nat),
                    ..self
                },
                if batch.status != 0 {
                    Err(
                        ErrorView::Native {
                            operation: "post_jetty_send_wr_batch"@,
                            status: batch.status,
                        },
                    )
                } else if batch.posted != layouts.len() {
                    Err(ErrorView::Protocol("successful SEND batch did not post every WR"@))
                } else {
                    Ok(batch.posted)
                },
            ),
        }
    }

    /// Why one send is refused before the provider is asked, and the pool after that, if it is
    /// refused. A `prepared` send takes its bytes from the range that all TX slots share.
    pub open spec fn send_refusal(self, length: nat, prepared: bool) -> Option<
        (ErrorView, PoolView),
    > {
        let pool = self.plane.pool;
        let slot = SlotId::at(pool.free_tx.last());
        let taken = pool.after_allocate(SlotKind::Tx);
        let layout_error = if prepared {
            taken.aliased_layout_error(slot, length)
        } else {
            taken.write_error(slot, length)
        };
        if self.require_error(ConnectionState::Ready) is Some {
            Some((self.require_error(ConnectionState::Ready)->0, pool))
        } else if !self.credit_started {
            Some(
                (
                    ErrorView::Protocol("SEND is forbidden before at least one RECV is posted"@),
                    pool,
                ),
            )
        } else if !pool.accepting || pool.free_tx.len() == 0 {
            Some((ErrorView::InvalidConfiguration("no free TX slot"@), pool))
        } else if layout_error is Some {
            Some((layout_error->0, taken.after_release(slot)))
        } else if slot.position() > u32::MAX {
            Some(
                (
                    ErrorView::InvalidConfiguration("slot id exceeds 32 bits"@),
                    taken.after_release(slot),
                ),
            )
        } else if !pool.open {
            Some((slot_model::segment_closed(), taken.after_release(slot)))
        } else {
            None
        }
    }

    /// The work request of one send of `length` bytes.
    pub open spec fn send_descriptor(self, length: nat, force: bool) -> WrDescriptor {
        let slot = SlotId::at(self.plane.pool.free_tx.last());
        WrDescriptor {
            offset: self.plane.pool.offset(slot.position() as int) as u64,
            length: length as u32,
            user_ctx: self.user_ctx(OperationType::Send, slot),
            complete_enable: force || self.since + 1 >= self.interval,
        }
    }

    /// The connection after one send that was not refused, for what became of it, and what it gives.
    pub open spec fn send_one(
        self,
        length: nat,
        sequence: Option<u64>,
        force: bool,
        outcome: SendOutcome,
    ) -> (Self, core::result::Result<(), ErrorView>) {
        let pool = self.plane.pool;
        let slot = SlotId::at(pool.free_tx.last());
        let taken = pool.after_allocate(SlotKind::Tx);
        let descriptor = self.send_descriptor(length, force);
        match outcome {
            SendOutcome::WriteFailed(failure) => (
                self.with_pool(taken.after_release(slot)),
                Err(failure.mapped("write_tx_slot"@)),
            ),
            SendOutcome::PostFailed(failure) => (
                self.with_pool(taken.after_release(slot)),
                Err(failure.mapped("post_jetty_send_wr"@)),
            ),
            SendOutcome::Posted => (
                ConnectionView {
                    plane: self.posted(
                        taken,
                        OperationType::Send,
                        seq![slot],
                        seq![descriptor],
                        sequence,
                        1,
                    ),
                    since: if descriptor.complete_enable {
                        0
                    } else {
                        self.since + 1
                    },
                    ..self
                },
                Ok(()),
            ),
        }
    }

    /// No more than an interval's worth of sends goes out without asking for a completion.
    pub proof fn lemma_since(self, n: nat, k: nat)
        requires
            self.since < self.interval,
        ensures
            self.since_at(n, k) < self.interval,
        decreases k,
    {
        if k > 0 {
            self.lemma_since(n, (k - 1) as nat);
        }
    }

    pub(super) proof fn lemma_user_ctx(self, operation: OperationType, slot: SlotId)
        requires
            self.wf(),
            slot.position() <= u32::MAX,
        ensures
            self.token(operation, slot).encode_error() is None,
            self.token(operation, slot).user_ctx() == self.user_ctx(operation, slot),
            WrToken::decode_error(self.user_ctx(operation, slot)) is None,
            WrToken::of_user_ctx(self.user_ctx(operation, slot)) == self.token(operation, slot),
    {
        let token = self.token(operation, slot);
        wr::wr_token_round_trip(token, token);
    }
}

pub(super) proof fn lemma_one_slot(pool: PoolView, kind: SlotKind)
    requires
        pool.wf(),
        pool.free_count(kind) > 0,
    ensures
        pool.after_allocations(kind, 1) == pool.after_allocate(kind),
        pool.allocations(kind, 1) == seq![SlotId::at(pool.next_free(kind)->0)],
        pool.after_allocate(kind).after_recycled_slots(pool.allocations(kind, 1))
            == pool.after_allocate(kind).after_release(SlotId::at(pool.next_free(kind)->0)),
{
    let slot = SlotId::at(pool.next_free(kind)->0);
    reveal_with_fuel(PoolView::after_allocations, 2);
    assert(pool.allocations(kind, 1) =~= seq![slot]);
    let none = seq![slot].drop_last();
    assert(none =~= Seq::empty());
    assert(pool.after_allocate(kind).after_recycled_slots(none) == pool.after_allocate(kind));
    assert(seq![slot].last() == slot);
}

impl UrmaConnection {
    pub(super) fn encode(&self, operation: OperationType, slot: SlotId) -> (encoded: Result<u64>)
        requires
            self.wf(),
        ensures
            match encoded {
                Ok(user_ctx) => {
                    &&& slot.position() <= u32::MAX
                    &&& user_ctx == self@.user_ctx(operation, slot)
                    &&& WrToken::decode_error(user_ctx) is None
                    &&& WrToken::of_user_ctx(user_ctx) == self@.token(operation, slot)
                },
                Err(error) => {
                    &&& slot.position() > u32::MAX
                    &&& error@ == ErrorView::InvalidConfiguration("slot id exceeds 32 bits"@)
                },
            },
    {
        let token = WrToken {
            connection_id: self.poller.connection_id(),
            generation: self.poller.generation(),
            operation,
            slot,
        };
        proof {
            if slot.position() <= u32::MAX {
                self@.lemma_user_ctx(operation, slot);
            }
        }
        token.encode()
    }

    /// Marks allocated slots as posted, tracks the work requests that the provider accepted, and
    /// gives the other slots back.
    pub(super) fn settle(
        &mut self,
        operation: OperationType,
        slots: &Vec<SlotId>,
        descriptors: &Vec<WrDescriptor>,
        base: Option<u64>,
        accepted: usize,
    )
        requires
            old(self).wf(),
            old(self)@.plane.pool.holds(
                slots@,
                table_model::kind_of(operation),
                SlotState::Allocated,
            ),
            PlaneView::on_slots(descriptors@, operation, slots@),
            accepted <= slots@.len(),
            base matches Some(first) ==> slots@.len() > 0 ==> first + (slots@.len() - 1) <= u64::MAX,
        ensures
            final(self).wf(),
            final(self)@ == (ConnectionView {
                plane: old(self)@.posted(
                    old(self)@.plane.pool,
                    operation,
                    slots@,
                    descriptors@,
                    base,
                    accepted as nat,
                ),
                ..old(self)@
            }),
    {
        let ghost before = self@;
        let kind = match operation {
            OperationType::Send => SlotKind::Tx,
            OperationType::Recv => SlotKind::Rx,
        };
        let ghost posted_state = slot_model::posted_state(kind);
        proof {
            before.plane.lemma_unused(slots@, kind, SlotState::Allocated);
            before.plane.pool.lemma_posts(slots@, kind);
        }
        self.pool.post_many(slots, kind);
        let ghost posted = self.pool@;
        proof {
            before.plane.lemma_pool_changes(posted, slots@);
        }
        self.poller.record_post_call(operation, descriptors.len());
        let ghost called = PlaneView { poller: self.poller@, pool: posted };
        proof {
            (PlaneView { poller: before.plane.poller, pool: posted }).lemma_counters(called.poller);
        }
        let mut index: usize = 0;
        while index < accepted
            invariant
                self.pool.wf(),
                self.pool@ == posted,
                called.pool == posted,
                called.wf(),
                called.unused(slots@),
                posted.holds(slots@, kind, posted_state),
                kind == table_model::kind_of(operation),
                posted_state == slot_model::posted_state(kind),
                PlaneView::on_slots(descriptors@, operation, slots@),
                index <= accepted <= slots@.len(),
                base matches Some(first) ==> slots@.len() > 0 ==> first + (slots@.len() - 1)
                    <= u64::MAX,
                self.poller@ == called.poller.after_tracks(descriptors@, base, index as nat),
                self@ == (ConnectionView {
                    plane: PlaneView { poller: self.poller@, pool: posted },
                    ..before
                }),
            decreases accepted - index,
        {
            proof {
                called.lemma_tracks(operation, slots@, descriptors@, base, index as nat);
                called.lemma_tracks(operation, slots@, descriptors@, base, (index + 1) as nat);
            }
            let descriptor = descriptors[index];
            let sequence: Option<u64> = match base {
                Some(first) => Some(first + index as u64),
                None => None,
            };
            let noted = self.poller.track(
                descriptor.user_ctx,
                sequence,
                descriptor.complete_enable,
            );
            assert(noted is Ok);
            index += 1;
        }
        proof {
            called.lemma_tracks(operation, slots@, descriptors@, base, accepted as nat);
            let rest = slots@.skip(accepted as int);
            assert(posted.holds(rest, kind, posted_state)) by {
                assert forall|k: int| 0 <= k < rest.len() implies posted.has(#[trigger] rest[k])
                    && posted.kind(rest[k].position() as int) == kind && posted.state(rest[k])
                    == posted_state by {
                    assert(rest[k] == slots@[k + accepted]);
                }
            }
            posted.lemma_give_back(rest);
        }
        let ghost noted = self@.plane;
        self.pool.give_back(slots, accepted, kind, true);
        proof {
            noted.lemma_pool_changes(self.pool@, slots@.skip(accepted as int));
            assert(self@ =~= ConnectionView {
                plane: before.posted(
                    before.plane.pool,
                    operation,
                    slots@,
                    descriptors@,
                    base,
                    accepted as nat,
                ),
                ..before
            });
        }
    }

    /// Gives allocated slots back.
    pub(super) fn abandon(&mut self, slots: &Vec<SlotId>, kind: SlotKind)
        requires
            old(self).wf(),
            old(self)@.plane.pool.holds(slots@, kind, SlotState::Allocated),
        ensures
            final(self).wf(),
            final(self)@ == old(self)@.with_pool(
                old(self)@.plane.pool.after_recycled_slots(slots@),
            ),
    {
        let ghost before = self@;
        proof {
            before.plane.lemma_unused(slots@, kind, SlotState::Allocated);
            before.plane.pool.lemma_give_back(slots@);
            assert(slots@.skip(0) =~= slots@);
        }
        self.pool.give_back(slots, 0, kind, false);
        proof {
            before.plane.lemma_pool_changes(self.pool@, slots@);
        }
    }

    /// Takes free slots.
    pub(super) fn take_slots(&mut self, kind: SlotKind, count: usize) -> (slots: Option<Vec<SlotId>>)
        requires
            old(self).wf(),
            count > 0,
        ensures
            final(self).wf(),
            ({
                let pool = old(self)@.plane.pool;
                match slots {
                    Some(slots) => {
                        &&& pool.accepting
                        &&& count <= pool.free_count(kind)
                        &&& slots@ == pool.allocations(kind, count as nat)
                        &&& final(self)@ == old(self)@.with_pool(
                            pool.after_allocations(kind, count as nat),
                        )
                        &&& final(self)@.plane.pool.holds(slots@, kind, SlotState::Allocated)
                    },
                    None => {
                        &&& !pool.accepting || count > pool.free_count(kind)
                        &&& final(self)@ == old(self)@
                    },
                }
            }),
    {
        let ghost before = self@;
        let slots = self.pool.allocate_many(kind, count);
        proof {
            if slots is Some {
                before.plane.pool.lemma_allocations(kind, count as nat);
                before.plane.lemma_unused(slots->0@, kind, SlotState::Free);
                before.plane.lemma_pool_changes(self.pool@, slots->0@);
            }
        }
        slots
    }

    /// The work requests of a batch of `count` receives, whose sequences run from `first`.
    pub fn plan_recv_batch(&self, first: u64, count: usize) -> (planned: Result<Vec<WrDescriptor>>)
        requires
            self.wf(),
        ensures
            match planned {
                Ok(descriptors) => if count == 0 {
                    descriptors@.len() == 0
                } else {
                    &&& self@.recv_batch_refusal(first, count as nat) is None
                    &&& descriptors@ == self@.recv_descriptors(
                        self@.plane.pool.allocations(SlotKind::Rx, count as nat),
                    )
                    &&& PlaneView::on_slots(
                        descriptors@,
                        OperationType::Recv,
                        self@.plane.pool.allocations(SlotKind::Rx, count as nat),
                    )
                },
                Err(error) => {
                    &&& count > 0
                    &&& self@.recv_batch_refusal(first, count as nat) matches Some((expected, _))
                    &&& error@ == expected
                },
            },
    {
        let mut descriptors: Vec<WrDescriptor> = Vec::new();
        if count == 0 {
            return Ok(descriptors);
        }
        if self.state != ConnectionState::Bound && self.state != ConnectionState::Ready {
            return Err(self.state_error("post receive batch"));
        }
        let last: u64 = (count - 1) as u64;
        if first > u64::MAX - last {
            return Err(protocol("RECV sequence overflow"));
        }
        let free: usize = self.pool.free_slots(SlotKind::Rx);
        if !self.pool.is_accepting() || free == 0 {
            return Err(invalid("no free RX slot"));
        }
        if self.pool.config().slot_size as u64 > 0xffff_ffff {
            return Err(invalid("slot size exceeds u32"));
        }
        if count > free {
            return Err(invalid("no free RX slot"));
        }
        let ghost slots = self@.plane.pool.allocations(SlotKind::Rx, count as nat);
        let length: u32 = self.pool.config().slot_size as u32;
        while descriptors.len() < count
            invariant
                self.wf(),
                0 < count <= self@.plane.pool.free_rx.len(),
                descriptors@.len() <= count,
                length == self@.plane.pool.config.slot_size,
                slots == self@.plane.pool.allocations(SlotKind::Rx, count as nat),
                self@.state == ConnectionState::Bound || self@.state == ConnectionState::Ready,
                first + (count - 1) <= u64::MAX,
                self@.plane.pool.accepting,
                self@.plane.pool.config.slot_size <= u32::MAX,
                descriptors@ == self@.recv_descriptors(slots).take(descriptors@.len() as int),
                forall|k: int|
                    0 <= k < descriptors@.len() ==> {
                        let user_ctx = (#[trigger] descriptors@[k]).user_ctx;
                        &&& WrToken::decode_error(user_ctx) is None
                        &&& WrToken::of_user_ctx(user_ctx).operation == OperationType::Recv
                        &&& WrToken::of_user_ctx(user_ctx).slot == slots[k]
                        &&& slots[k].position() <= u32::MAX
                    },
            decreases count - descriptors@.len(),
        {
            let ghost done = descriptors@.len() as int;
            let slot = self.pool.upcoming(SlotKind::Rx, descriptors.len());
            assert(slot == slots[done]);
            proof {
                slot.lemma_position();
                self@.plane.pool.lemma_allocations(SlotKind::Rx, count as nat);
                assert(self@.plane.pool.has(slots[done]));
            }
            let user_ctx: u64 = match self.encode(OperationType::Recv, slot) {
                Ok(user_ctx) => user_ctx,
                Err(error) => {
                    assert(slots[done].position() > u32::MAX);
                    return Err(error);
                },
            };
            let offset: u64 = match self.pool.slot_layout(slot) {
                Some((offset, _)) => offset as u64,
                None => 0,
            };
            descriptors.push(
                WrDescriptor { offset, length, user_ctx, complete_enable: true },
            );
            assert(descriptors@ =~= self@.recv_descriptors(slots).take(done + 1));
        }
        assert(descriptors@ =~= self@.recv_descriptors(slots));
        assert(!ConnectionView::unencodable(slots)) by {
            assert forall|k: int| 0 <= k < slots.len() implies (#[trigger] slots[k]).position()
                <= u32::MAX by {
                assert(WrToken::decode_error(descriptors@[k].user_ctx) is None);
            }
        }
        if !self.pool.is_open() {
            return Err(invalid("registered Segment is closed"));
        }
        Ok(descriptors)
    }

    /// Posts a batch of `count` receives, whose sequences run from `first`. `answer` is what the
    /// provider said of the planned work requests; it counts only where the plan was not refused.
    pub fn recv_ready_tracked_batch(
        &mut self,
        first: u64,
        count: usize,
        answer: core::result::Result<PostBatch, FfiError>,
    ) -> (posted: Result<usize>)
        requires
            old(self).wf(),
            answer matches Ok(batch) ==> batch.posted <= count,
        ensures
            final(self).wf(),
            if count == 0 {
                &&& posted matches Ok(posted)
                &&& posted == 0
                &&& final(self)@ == old(self)@
            } else {
                match old(self)@.recv_batch_refusal(first, count as nat) {
                    Some((expected, pool)) => {
                        &&& posted matches Err(error)
                        &&& error@ == expected
                        &&& final(self)@ == old(self)@.with_pool(pool)
                    },
                    None => {
                        let (after, outcome) = old(self)@.recv_batch(first, count as nat, answer);
                        &&& final(self)@ == after
                        &&& match posted {
                            Ok(posted) => outcome == Ok::<usize, ErrorView>(posted),
                            Err(error) => outcome == Err::<usize, ErrorView>(error@),
                        }
                    },
                }
            },
    {
        if count == 0 {
            return Ok(0);
        }
        let ghost before = self@;
        let last: u64 = (count - 1) as u64;
        let descriptors = match self.plan_recv_batch(first, count) {
            Ok(descriptors) => descriptors,
            Err(error) => {
                let allowed = (self.state == ConnectionState::Bound || self.state
                    == ConnectionState::Ready) && first <= u64::MAX - last
                    && self.pool.is_accepting() && self.pool.free_slots(SlotKind::Rx) > 0;
                if allowed {
                    let taken: usize = if self.pool.config().slot_size as u64 > 0xffff_ffff {
                        1
                    } else {
                        count
                    };
                    match self.take_slots(SlotKind::Rx, taken) {
                        Some(slots) => {
                            self.abandon(&slots, SlotKind::Rx);
                            proof {
                                if taken == 1 {
                                    lemma_one_slot(before.plane.pool, SlotKind::Rx);
                                }
                            }
                        },
                        None => {},
                    }
                }
                assert(self@ =~= before.with_pool(
                    (before.recv_batch_refusal(first, count as nat)->0).1,
                ));
                return Err(error);
            },
        };
        let slots = match self.take_slots(SlotKind::Rx, count) {
            Some(slots) => slots,
            None => {
                assert(false);
                return Ok(0);
            },
        };
        match answer {
            Err(failure) => {
                self.abandon(&slots, SlotKind::Rx);
                Err(map_ffi_error("post_jetty_recv_wr_batch", failure))
            },
            Ok(batch) => {
                self.settle(OperationType::Recv, &slots, &descriptors, Some(first), batch.posted);
                self.add_credit(batch.posted);
                if batch.status != 0 {
                    return Err(
                        Error::Native {
                            operation: "post_jetty_recv_wr_batch",
                            status: batch.status,
                        },
                    );
                }
                if batch.posted != count {
                    return Err(protocol("successful RECV batch did not post every WR"));
                }
                Ok(batch.posted)
            },
        }
    }

    /// Counts posted receives.
    fn add_credit(&mut self, count: usize)
        requires
            old(self).wf(),
        ensures
            final(self).wf(),
            final(self)@ == (ConnectionView {
                credit: credited(old(self)@.credit, count as nat),
                credit_started: old(self)@.credit_started || count > 0,
                ..old(self)@
            }),
    {
        let ghost before = self@;
        let held: usize = self.receive_credit.current();
        let mut index: usize = 0;
        assert(before.credit == held);
        while index < count
            invariant
                self.wf(),
                index <= count,
                before.credit <= usize::MAX,
                self@ == (ConnectionView {
                    credit: credited(before.credit, index as nat),
                    credit_started: before.credit_started || index > 0,
                    ..before
                }),
            decreases count - index,
        {
            self.receive_credit.posted();
            index += 1;
        }
    }

    /// The work request of one receive.
    pub fn plan_recv(&self) -> (planned: Result<WrDescriptor>)
        requires
            self.wf(),
        ensures
            match planned {
                Ok(descriptor) => {
                    &&& self@.recv_refusal() is None
                    &&& self@.recv_descriptors(self@.plane.pool.allocations(SlotKind::Rx, 1))
                        == seq![descriptor]
                    &&& PlaneView::on_slots(
                        seq![descriptor],
                        OperationType::Recv,
                        self@.plane.pool.allocations(SlotKind::Rx, 1),
                    )
                },
                Err(error) => {
                    &&& self@.recv_refusal() matches Some((expected, _))
                    &&& error@ == expected
                },
            },
    {
        if self.state != ConnectionState::Bound && self.state != ConnectionState::Ready {
            return Err(self.state_error("post receive"));
        }
        if !self.pool.is_accepting() || self.pool.free_slots(SlotKind::Rx) == 0 {
            return Err(invalid("no free RX slot"));
        }
        if self.pool.config().slot_size as u64 > 0xffff_ffff {
            return Err(invalid("slot size exceeds u32"));
        }
        let slot = self.pool.upcoming(SlotKind::Rx, 0);
        proof {
            slot.lemma_position();
            lemma_one_slot(self@.plane.pool, SlotKind::Rx);
            self@.plane.pool.lemma_allocations(SlotKind::Rx, 1);
            assert(self@.plane.pool.has(self@.plane.pool.allocations(SlotKind::Rx, 1)[0]));
        }
        let user_ctx: u64 = match self.encode(OperationType::Recv, slot) {
            Ok(user_ctx) => user_ctx,
            Err(error) => {
                return Err(error);
            },
        };
        if !self.pool.is_open() {
            return Err(invalid("registered Segment is closed"));
        }
        let offset: u64 = match self.pool.slot_layout(slot) {
            Some((offset, _)) => offset as u64,
            None => 0,
        };
        let descriptor = WrDescriptor {
            offset,
            length: self.pool.config().slot_size as u32,
            user_ctx,
            complete_enable: true,
        };
        assert(self@.recv_descriptors(self@.plane.pool.allocations(SlotKind::Rx, 1)) =~= seq![
            descriptor,
        ]);
        Ok(descriptor)
    }

    fn recv_ready_with_sequence(
        &mut self,
        sequence: Option<u64>,
        answer: core::result::Result<(), FfiError>,
    ) -> (posted: Result<()>)
        requires
            old(self).wf(),
        ensures
            final(self).wf(),
            match old(self)@.recv_refusal() {
                Some((expected, pool)) => {
                    &&& posted matches Err(error)
                    &&& error@ == expected
                    &&& final(self)@ == old(self)@.with_pool(pool)
                },
                None => {
                    let (after, outcome) = old(self)@.recv_one(sequence, answer);
                    &&& final(self)@ == after
                    &&& match posted {
                        Ok(()) => outcome == Ok::<(), ErrorView>(()),
                        Err(error) => outcome == Err::<(), ErrorView>(error@),
                    }
                },
            },
    {
        let ghost before = self@;
        let descriptor = match self.plan_recv() {
            Ok(descriptor) => descriptor,
            Err(error) => {
                let allowed = (self.state == ConnectionState::Bound || self.state
                    == ConnectionState::Ready) && self.pool.is_accepting() && self.pool.free_slots(
                    SlotKind::Rx,
                ) > 0;
                if allowed {
                    proof {
                        lemma_one_slot(before.plane.pool, SlotKind::Rx);
                    }
                    match self.take_slots(SlotKind::Rx, 1) {
                        Some(slots) => {
                            if self.pool.config().slot_size as u64 <= 0xffff_ffff
                                && slots[0].index() as u64 <= 0xffff_ffff {
                                self.mark_unposted(&slots);
                            }
                        },
                        None => {},
                    }
                }
                assert(self@ =~= before.with_pool((before.recv_refusal()->0).1));
                return Err(error);
            },
        };
        let slots = match self.take_slots(SlotKind::Rx, 1) {
            Some(slots) => slots,
            None => {
                assert(false);
                return Ok(());
            },
        };
        match answer {
            Err(failure) => {
                self.abandon(&slots, SlotKind::Rx);
                Err(map_ffi_error("post_jetty_recv_wr", failure))
            },
            Ok(()) => {
                let mut descriptors: Vec<WrDescriptor> = Vec::new();
                descriptors.push(descriptor);
                assert(descriptors@ =~= seq![descriptor]);
                self.settle(OperationType::Recv, &slots, &descriptors, sequence, 1);
                self.add_credit(1);
                Ok(())
            },
        }
    }

    /// Marks one allocated slot as posted, though nothing was posted.
    fn mark_unposted(&mut self, slots: &Vec<SlotId>)
        requires
            old(self).wf(),
            slots@.len() == 1,
            old(self)@.plane.pool.holds(slots@, SlotKind::Rx, SlotState::Allocated),
        ensures
            final(self).wf(),
            final(self)@ == old(self)@.with_pool(
                old(self)@.plane.pool.with_state(slots@[0], SlotState::PostedRecv),
            ),
    {
        let ghost before = self@;
        proof {
            before.plane.lemma_unused(slots@, SlotKind::Rx, SlotState::Allocated);
            before.plane.pool.lemma_posts(slots@, SlotKind::Rx);
            let none = slots@.drop_last();
            assert(none =~= Seq::empty());
            assert(before.plane.pool.after_posts(none, SlotKind::Rx) == before.plane.pool);
        }
        self.pool.post_many(slots, SlotKind::Rx);
        proof {
            before.plane.lemma_pool_changes(self.pool@, slots@);
        }
    }

    /// Posts one receive, for what the provider said of the planned work request.
    pub fn recv_ready(&mut self, answer: core::result::Result<(), FfiError>) -> (posted: Result<()>)
        requires
            old(self).wf(),
        ensures
            final(self).wf(),
            match old(self)@.recv_refusal() {
                Some((expected, pool)) => {
                    &&& posted matches Err(error)
                    &&& error@ == expected
                    &&& final(self)@ == old(self)@.with_pool(pool)
                },
                None => {
                    let (after, outcome) = old(self)@.recv_one(None, answer);
                    &&& final(self)@ == after
                    &&& match posted {
                        Ok(()) => outcome == Ok::<(), ErrorView>(()),
                        Err(error) => outcome == Err::<(), ErrorView>(error@),
                    }
                },
            },
    {
        self.recv_ready_with_sequence(None, answer)
    }

    /// Posts one receive with a sequence, for what the provider said of the planned work request.
    pub fn recv_ready_tracked(
        &mut self,
        sequence: u64,
        answer: core::result::Result<(), FfiError>,
    ) -> (posted: Result<()>)
        requires
            old(self).wf(),
        ensures
            final(self).wf(),
            match old(self)@.recv_refusal() {
                Some((expected, pool)) => {
                    &&& posted matches Err(error)
                    &&& error@ == expected
                    &&& final(self)@ == old(self)@.with_pool(pool)
                },
                None => {
                    let (after, outcome) = old(self)@.recv_one(Some(sequence), answer);
                    &&& final(self)@ == after
                    &&& match posted {
                        Ok(()) => outcome == Ok::<(), ErrorView>(()),
                        Err(error) => outcome == Err::<(), ErrorView>(error@),
                    }
                },
            },
    {
        self.recv_ready_with_sequence(Some(sequence), answer)
    }
}

/// Where the TX slots share one range, a send that would write its message by itself is always
/// refused, and leaves the pool as it was.
pub proof fn shared_ranges_take_no_normal_sends(connection: ConnectionView, length: nat)
    requires
        connection.wf(),
        connection.plane.pool.config.alias_tx_slots,
    ensures
        connection.send_refusal(length, false) matches Some((_, pool))
            && pool == connection.plane.pool,
{
    let pool = connection.plane.pool;
    if pool.accepting && pool.free_tx.len() > 0 {
        let slot = SlotId::at(pool.free_tx.last());
        slot.lemma_position();
        assert(pool.free_tx[pool.free_tx.len() - 1] == slot.position());
        assert(pool.states[slot.position() as int] == SlotState::Free);
        let back = pool.after_allocate(SlotKind::Tx).after_release(slot);
        assert(back.states =~= pool.states);
        assert(back.free_tx =~= pool.free_tx);
        assert(back =~= pool);
    }
}

} // verus!
