//! Sending: single messages and prepared batches.

use vstd::prelude::*;

use super::posting;
use super::posting::SendOutcome;
use super::{ConnectionState, ConnectionView, UrmaConnection};
use crate::buffer::pool;
use crate::buffer::{PoolView, PreparedTxBatch, SlotId, SlotKind, SlotState};
use crate::completion::PlaneView;
use crate::error::{invalid, protocol, Error, ErrorView, Result};
use crate::message::Message;
use crate::provider::{map_ffi_error, FfiError, PostBatch, WrDescriptor};
use crate::wr::{OperationType, WrToken};

verus! {

impl ConnectionView {
    /// Why a batch is not prepared, if the connection does not allow it.
    pub open spec fn prepare_error(self) -> Option<ErrorView> {
        if self.require_error(ConnectionState::Ready) is Some {
            self.require_error(ConnectionState::Ready)
        } else if !self.credit_started {
            Some(ErrorView::Protocol("SEND is forbidden before at least one RECV is posted"@))
        } else {
            None
        }
    }
}

/// A batch takes free slots, and leaves all others as they are.
proof fn lemma_batch_slots(pool: PoolView, start: int, lengths: Seq<usize>)
    requires
        pool.wf(),
        pool.free_run(start, lengths.len() as int),
        lengths.len() > 0,
    ensures
        ({
            let slots = pool::batch_slots(pool.batch_layouts(start, lengths));
            let after = pool.after_batch(start, lengths.len() as int);
            &&& after.wf()
            &&& pool.holds(slots, SlotKind::Tx, SlotState::Free)
            &&& after.holds(slots, SlotKind::Tx, SlotState::Allocated)
            &&& after.differs_at(pool, slots)
        }),
{
    let n = lengths.len() as int;
    let layouts = pool.batch_layouts(start, lengths);
    let slots = pool::batch_slots(layouts);
    let after = pool.after_batch(start, n);
    pool.lemma_batch(start, n);
    assert forall|k: int| 0 <= k < slots.len() implies #[trigger] slots[k] == SlotId::at(
        (start + k) as usize,
    ) && slots[k].position() == start + k by {
        assert(layouts[k].0 == slots[k]);
        slots[k].lemma_position();
    }
    assert forall|k: int| 0 <= k < slots.len() implies pool.has(#[trigger] slots[k]) && pool.kind(
        slots[k].position() as int,
    ) == SlotKind::Tx && pool.state(slots[k]) == SlotState::Free && after.has(slots[k])
        && after.kind(slots[k].position() as int) == SlotKind::Tx && after.state(slots[k])
        == SlotState::Allocated by {
        assert(pool.states[start + k] == SlotState::Free);
    }
    assert forall|i: int|
        0 <= i < pool.states.len() && !slots.contains(
            SlotId::at(i as usize),
        ) implies #[trigger] after.states[i] == pool.states[i] by {
        if start <= i < start + n {
            assert(slots[i - start] == SlotId::at(i as usize));
        }
    }
}

impl UrmaConnection {
    /// Takes slots for a batch of messages; the caller fills their range.
    pub fn prepare_filled_batch(&mut self, lengths: &[usize]) -> (prepared: Result<PreparedTxBatch>)
        requires
            old(self).wf(),
        ensures
            final(self).wf(),
            ({
                let pool = old(self)@.plane.pool;
                match prepared {
                    Ok(batch) => {
                        &&& old(self)@.prepare_error() is None
                        &&& pool.batch_request_error(lengths@) is None
                        &&& exists|start: int|
                            {
                                &&& #[trigger] pool.leftmost_run(start, lengths@.len() as int)
                                &&& batch@ == pool.batch_layouts(start, lengths@)
                                &&& batch.fill_range() == (
                                    pool.offset(start) as u64,
                                    pool.batch_bytes(lengths@) as u32,
                                )
                                &&& final(self)@ == old(self)@.with_pool(
                                    pool.after_batch(start, lengths@.len() as int),
                                )
                            }
                        &&& final(self)@.plane.pool.holds(
                            pool::batch_slots(batch@),
                            SlotKind::Tx,
                            SlotState::Allocated,
                        )
                    },
                    Err(error) => {
                        &&& final(self)@ == old(self)@
                        &&& if old(self)@.prepare_error() is Some {
                            old(self)@.prepare_error() == Some(error@)
                        } else {
                            match pool.batch_request_error(lengths@) {
                                Some(expected) => error@ == expected,
                                None => {
                                    &&& error@ == ErrorView::InvalidConfiguration(
                                        "no contiguous free TX batch"@,
                                    )
                                    &&& forall|start: int|
                                        !#[trigger] pool.free_run(start, lengths@.len() as int)
                                },
                            }
                        }
                    },
                }
            }),
    {
        let ghost before = self@;
        match self.require(ConnectionState::Ready) {
            Ok(()) => {},
            Err(error) => {
                return Err(error);
            },
        }
        match self.receive_credit.require_before_send() {
            Ok(()) => {},
            Err(error) => {
                return Err(error);
            },
        }
        let prepared = self.pool.prepare_tx_batch(lengths);
        proof {
            let pool = before.plane.pool;
            if prepared is Ok {
                let batch = prepared->Ok_0;
                let start = choose|start: int|
                    {
                        &&& #[trigger] pool.leftmost_run(start, lengths@.len() as int)
                        &&& batch@ == pool.batch_layouts(start, lengths@)
                        &&& batch.fill_range() == (
                            pool.offset(start) as u64,
                            pool.batch_bytes(lengths@) as u32,
                        )
                        &&& self.pool@ == pool.after_batch(start, lengths@.len() as int)
                    };
                lemma_batch_slots(pool, start, lengths@);
                let slots = pool::batch_slots(batch@);
                before.plane.lemma_unused(slots, SlotKind::Tx, SlotState::Free);
                before.plane.lemma_pool_changes(self.pool@, slots);
                assert(self@ =~= before.with_pool(pool.after_batch(start, lengths@.len() as int)));
            }
        }
        prepared
    }

    /// The slots of a batch.
    fn slots_of(batch: &PreparedTxBatch) -> (slots: Vec<SlotId>)
        ensures
            slots@ == pool::batch_slots(batch@),
    {
        let mut slots: Vec<SlotId> = Vec::new();
        while slots.len() < batch.len()
            invariant
                slots@.len() <= batch@.len(),
                slots@ == pool::batch_slots(batch@).take(slots@.len() as int),
            decreases batch@.len() - slots@.len(),
        {
            let ghost done = slots@.len() as int;
            let (slot, _, _): (SlotId, u64, u32) = batch.layout(slots.len());
            slots.push(slot);
            assert(slots@ =~= pool::batch_slots(batch@).take(done + 1));
        }
        assert(slots@ =~= pool::batch_slots(batch@));
        slots
    }

    /// Gives back the slots of a batch that was not posted.
    pub fn discard_prepared_batch(&mut self, batch: PreparedTxBatch) -> (discarded: Result<()>)
        requires
            old(self).wf(),
            old(self)@.plane.pool.holds(
                pool::batch_slots(batch@),
                SlotKind::Tx,
                SlotState::Allocated,
            ),
        ensures
            final(self).wf(),
            discarded is Ok,
            final(self)@ == old(self)@.with_pool(
                old(self)@.plane.pool.after_recycled_slots(pool::batch_slots(batch@)),
            ),
    {
        let slots = Self::slots_of(&batch);
        self.abandon(&slots, SlotKind::Tx);
        Ok(())
    }

    /// The work requests of a prepared batch, whose sequences run from `first`.
    pub fn plan_prepared_batch(&self, batch: &PreparedTxBatch, first: u64) -> (planned: Result<
        Vec<WrDescriptor>,
    >)
        requires
            self.wf(),
        ensures
            match planned {
                Ok(descriptors) => {
                    &&& self@.send_batch_refusal(batch@, first) is None
                    &&& descriptors@ == self@.send_descriptors(batch@)
                    &&& descriptors@.len() > 0 ==> descriptors@.last().complete_enable
                    &&& PlaneView::on_slots(
                        descriptors@,
                        OperationType::Send,
                        pool::batch_slots(batch@),
                    )
                },
                Err(error) => self@.send_batch_refusal(batch@, first) == Some(error@),
            },
    {
        match self.require(ConnectionState::Ready) {
            Ok(()) => {},
            Err(error) => {
                return Err(error);
            },
        }
        let count: usize = batch.len();
        if count > 0 && first > u64::MAX - (count - 1) as u64 {
            return Err(protocol("SEND sequence overflow"));
        }
        let ghost slots = pool::batch_slots(batch@);
        let mut descriptors: Vec<WrDescriptor> = Vec::new();
        let mut since: usize = self.sends_since_completion;
        while descriptors.len() < count
            invariant
                self.wf(),
                count == batch@.len(),
                self@.require_error(ConnectionState::Ready) is None,
                count > 0 ==> first + (count - 1) <= u64::MAX,
                descriptors@.len() <= count,
                slots == pool::batch_slots(batch@),
                since == self@.since_at(count as nat, descriptors@.len()),
                descriptors@ == self@.send_descriptors(batch@).take(descriptors@.len() as int),
                forall|k: int|
                    0 <= k < descriptors@.len() ==> {
                        let user_ctx = (#[trigger] descriptors@[k]).user_ctx;
                        &&& WrToken::decode_error(user_ctx) is None
                        &&& WrToken::of_user_ctx(user_ctx).operation == OperationType::Send
                        &&& WrToken::of_user_ctx(user_ctx).slot == slots[k]
                        &&& slots[k].position() <= u32::MAX
                    },
            decreases count - descriptors@.len(),
        {
            let ghost done = descriptors@.len() as int;
            let (slot, offset, length): (SlotId, u64, u32) = batch.layout(descriptors.len());
            assert(slot == slots[done]);
            proof {
                self@.lemma_since(count as nat, done as nat);
                assert(self@.interval <= usize::MAX);
            }
            let complete_enable = descriptors.len() + 1 == count || since + 1
                >= self.send_completion_interval;
            since = if complete_enable {
                0
            } else {
                since + 1
            };
            let user_ctx: u64 = match self.encode(OperationType::Send, slot) {
                Ok(user_ctx) => user_ctx,
                Err(error) => {
                    assert(slots[done].position() > u32::MAX);
                    return Err(error);
                },
            };
            descriptors.push(WrDescriptor { offset, length, user_ctx, complete_enable });
            assert(descriptors@ =~= self@.send_descriptors(batch@).take(done + 1));
        }
        assert(descriptors@ =~= self@.send_descriptors(batch@));
        assert(!ConnectionView::unencodable(slots)) by {
            assert forall|k: int| 0 <= k < slots.len() implies (#[trigger] slots[k]).position()
                <= u32::MAX by {
                assert(WrToken::decode_error(descriptors@[k].user_ctx) is None);
            }
        }
        if !self.pool.is_open() {
            return Err(invalid("registered Segment is closed"));
        }
        Ok(descriptors)
    }

    /// Posts a prepared batch, whose sequences run from `first`. `answer` is what the provider said
    /// of the planned work requests; it counts only where the plan was not refused.
    pub fn post_prepared_batch_tracked(
        &mut self,
        batch: PreparedTxBatch,
        first: u64,
        answer: core::result::Result<PostBatch, FfiError>,
    ) -> (posted: Result<usize>)
        requires
            old(self).wf(),
            old(self)@.plane.pool.holds(
                pool::batch_slots(batch@),
                SlotKind::Tx,
                SlotState::Allocated,
            ),
            answer matches Ok(accepted) ==> accepted.posted <= batch@.len(),
        ensures
            final(self).wf(),
            match old(self)@.send_batch_refusal(batch@, first) {
                Some(expected) => {
                    &&& posted matches Err(error)
                    &&& error@ == expected
                    &&& final(self)@ == old(self)@.with_pool(
                        old(self)@.plane.pool.after_recycled_slots(pool::batch_slots(batch@)),
                    )
                },
                None => {
                    let (after, outcome) = old(self)@.send_batch(batch@, first, answer);
                    &&& final(self)@ == after
                    &&& match posted {
                        Ok(posted) => outcome == Ok::<usize, ErrorView>(posted),
                        Err(error) => outcome == Err::<usize, ErrorView>(error@),
                    }
                },
            },
    {
        let ghost before = self@;
        let slots = Self::slots_of(&batch);
        let descriptors = match self.plan_prepared_batch(&batch, first) {
            Ok(descriptors) => descriptors,
            Err(error) => {
                self.abandon(&slots, SlotKind::Tx);
                return Err(error);
            },
        };
        match answer {
            Err(failure) => {
                self.abandon(&slots, SlotKind::Tx);
                Err(map_ffi_error("post_jetty_send_wr_batch", failure))
            },
            Ok(accepted) => {
                self.settle(
                    OperationType::Send,
                    &slots,
                    &descriptors,
                    Some(first),
                    accepted.posted,
                );
                let ghost settled = self@;
                let mut index: usize = 0;
                while index < accepted.posted
                    invariant
                        self.wf(),
                        before.wf(),
                        index <= accepted.posted <= batch@.len(),
                        descriptors@ == before.send_descriptors(batch@),
                        settled.interval == before.interval,
                        settled.plane == before.posted(
                            before.plane.pool,
                            OperationType::Send,
                            pool::batch_slots(batch@),
                            descriptors@,
                            Some(first),
                            accepted.posted as nat,
                        ),
                        settled == (ConnectionView { plane: settled.plane, ..before }),
                        self@ == (ConnectionView {
                            since: before.since_at(batch@.len(), index as nat),
                            ..settled
                        }),
                    decreases accepted.posted - index,
                {
                    proof {
                        before.lemma_since(batch@.len(), index as nat);
                        before.lemma_since(batch@.len(), (index + 1) as nat);
                        assert(self@.interval <= usize::MAX);
                    }
                    if descriptors[index].complete_enable {
                        self.sends_since_completion = 0;
                    } else {
                        self.sends_since_completion = self.sends_since_completion + 1;
                    }
                    index += 1;
                }
                if accepted.status != 0 {
                    return Err(
                        Error::Native {
                            operation: "post_jetty_send_wr_batch",
                            status: accepted.status,
                        },
                    );
                }
                if accepted.posted != batch.len() {
                    return Err(protocol("successful SEND batch did not post every WR"));
                }
                Ok(accepted.posted)
            },
        }
    }

    /// Sets how many sends go out per completion asked for.
    pub fn configure_send_completion_interval(&mut self, interval: usize) -> (configured: Result<()>)
        requires
            old(self).wf(),
        ensures
            final(self).wf(),
            match configured {
                Ok(()) => {
                    &&& interval > 0
                    &&& old(self)@.plane.poller.send_order.len() == 0
                    &&& final(self)@ == (ConnectionView {
                        interval: interval as nat,
                        since: 0,
                        ..old(self)@
                    })
                },
                Err(error) => {
                    &&& interval == 0 || old(self)@.plane.poller.send_order.len() != 0
                    &&& error@ == ErrorView::InvalidConfiguration(
                        "completion interval must be non-zero and changed only with an empty SQ"@,
                    )
                    &&& final(self)@ == old(self)@
                },
            },
    {
        if interval == 0 || self.poller.outstanding_send() != 0 {
            return Err(
                invalid("completion interval must be non-zero and changed only with an empty SQ"),
            );
        }
        self.send_completion_interval = interval;
        self.sends_since_completion = 0;
        Ok(())
    }

    /// Takes a slot for one send and says what the provider is to be handed.
    fn begin_send(&mut self, bytes: &[u8], prepared: Option<usize>, force: bool) -> (begun: Result<
        (SlotId, WrDescriptor),
    >)
        requires
            old(self).wf(),
        ensures
            final(self).wf(),
            ({
                let length = sent_length(bytes@, prepared);
                let pool = old(self)@.plane.pool;
                match old(self)@.send_refusal(length, prepared is Some) {
                    Some((expected, after)) => {
                        &&& begun matches Err(error)
                        &&& error@ == expected
                        &&& final(self)@ == old(self)@.with_pool(after)
                    },
                    None => {
                        &&& begun matches Ok((slot, descriptor))
                        &&& slot == SlotId::at(pool.free_tx.last())
                        &&& descriptor == old(self)@.send_descriptor(length, force)
                        &&& PlaneView::on_slots(seq![descriptor], OperationType::Send, seq![slot])
                        &&& pool.free_tx.len() > 0
                        &&& final(self)@ == old(self)@.with_pool(pool.after_allocate(SlotKind::Tx))
                        &&& final(self)@.plane.pool.holds(
                            seq![slot],
                            SlotKind::Tx,
                            SlotState::Allocated,
                        )
                    },
                }
            }),
    {
        let ghost before = self@;
        let ghost length = sent_length(bytes@, prepared);
        match self.require(ConnectionState::Ready) {
            Ok(()) => {},
            Err(error) => {
                return Err(error);
            },
        }
        match self.receive_credit.require_before_send() {
            Ok(()) => {},
            Err(error) => {
                return Err(error);
            },
        }
        proof {
            assert(self@.interval <= usize::MAX);
        }
        let complete_enable = force || self.sends_since_completion + 1
            >= self.send_completion_interval;
        let slots = match self.take_slots(SlotKind::Tx, 1) {
            Some(slots) => slots,
            None => {
                return Err(invalid("no free TX slot"));
            },
        };
        let slot = slots[0];
        proof {
            posting::lemma_one_slot(before.plane.pool, SlotKind::Tx);
            assert(slots@ == seq![slot]);
            slot.lemma_position();
            assert(self@.plane.pool.has(slots@[0]));
        }
        let layout = match prepared {
            Some(length) => self.pool.aliased_tx_layout(slot, length),
            None => self.pool.write_tx(slot, bytes),
        };
        let (offset, sent): (u64, u32) = match layout {
            Ok(layout) => layout,
            Err(error) => {
                self.abandon(&slots, SlotKind::Tx);
                return Err(error);
            },
        };
        let user_ctx: u64 = match self.encode(OperationType::Send, slot) {
            Ok(user_ctx) => user_ctx,
            Err(error) => {
                self.abandon(&slots, SlotKind::Tx);
                return Err(error);
            },
        };
        if !self.pool.is_open() {
            self.abandon(&slots, SlotKind::Tx);
            return Err(invalid("registered Segment is closed"));
        }
        let descriptor = WrDescriptor { offset, length: sent, user_ctx, complete_enable };
        assert(self@.plane.pool.config == before.plane.pool.config);
        assert(descriptor == before.send_descriptor(length, force));
        Ok((slot, descriptor))
    }

    /// The work request of one send: of `bytes`, which are to be written at its offset first, or of
    /// the `prepared` length of the range that all TX slots share.
    pub fn plan_send(&mut self, bytes: &[u8], prepared: Option<usize>, force: bool) -> (planned:
        Result<WrDescriptor>)
        requires
            old(self).wf(),
        ensures
            final(self).wf(),
            final(self)@ == old(self)@,
            ({
                let length = sent_length(bytes@, prepared);
                match planned {
                    Ok(descriptor) => {
                        &&& old(self)@.send_refusal(length, prepared is Some) is None
                        &&& descriptor == old(self)@.send_descriptor(length, force)
                    },
                    Err(error) => {
                        &&& old(self)@.send_refusal(length, prepared is Some) matches Some(
                            (expected, _),
                        )
                        &&& error@ == expected
                    },
                }
            }),
    {
        let ghost before = self@;
        proof {
            if before.plane.pool.free_tx.len() > 0 {
                lemma_tx_round_trip(before.plane.pool);
            }
        }
        match self.begin_send(bytes, prepared, force) {
            Ok((slot, descriptor)) => {
                self.free_one(slot);
                assert(self@ =~= before);
                Ok(descriptor)
            },
            Err(error) => {
                assert(self@ =~= before);
                Err(error)
            },
        }
    }

    /// Frees one allocated TX slot.
    fn free_one(&mut self, slot: SlotId)
        requires
            old(self).wf(),
            old(self)@.plane.pool.holds(seq![slot], SlotKind::Tx, SlotState::Allocated),
        ensures
            final(self).wf(),
            final(self)@ == old(self)@.with_pool(old(self)@.plane.pool.after_release(slot)),
    {
        let ghost before = self@.plane.pool;
        let mut slots: Vec<SlotId> = Vec::new();
        slots.push(slot);
        proof {
            assert(slots@ =~= seq![slot]);
            let none = slots@.drop_last();
            assert(none =~= Seq::empty());
            assert(before.after_recycled_slots(none) == before);
        }
        self.abandon(&slots, SlotKind::Tx);
    }

    fn send_frame_with_sequence(
        &mut self,
        bytes: &[u8],
        sequence: Option<u64>,
        force: bool,
        prepared: Option<usize>,
        outcome: SendOutcome,
    ) -> (sent: Result<()>)
        requires
            old(self).wf(),
        ensures
            final(self).wf(),
            old(self)@.sends(
                sent_length(bytes@, prepared),
                prepared is Some,
                sequence,
                force,
                outcome,
                final(self)@,
                sent,
            ),
    {
        let ghost before = self@;
        let (slot, descriptor): (SlotId, WrDescriptor) = match self.begin_send(
            bytes,
            prepared,
            force,
        ) {
            Ok(begun) => begun,
            Err(error) => {
                return Err(error);
            },
        };
        match outcome {
            SendOutcome::WriteFailed(failure) => {
                self.free_one(slot);
                Err(map_ffi_error("write_tx_slot", failure))
            },
            SendOutcome::PostFailed(failure) => {
                self.free_one(slot);
                Err(map_ffi_error("post_jetty_send_wr", failure))
            },
            SendOutcome::Posted => {
                let mut slots: Vec<SlotId> = Vec::new();
                slots.push(slot);
                let mut descriptors: Vec<WrDescriptor> = Vec::new();
                descriptors.push(descriptor);
                assert(slots@ =~= seq![slot]);
                assert(descriptors@ =~= seq![descriptor]);
                self.settle(OperationType::Send, &slots, &descriptors, sequence, 1);
                assert(self@.interval <= usize::MAX);
                if descriptor.complete_enable {
                    self.sends_since_completion = 0;
                } else {
                    self.sends_since_completion = self.sends_since_completion + 1;
                }
                Ok(())
            },
        }
    }

    /// Sends one encoded message, for what became of the planned work request.
    pub fn send_frame(&mut self, bytes: &[u8], outcome: SendOutcome) -> (sent: Result<()>)
        requires
            old(self).wf(),
        ensures
            final(self).wf(),
            old(self)@.sends(bytes@.len(), false, None, true, outcome, final(self)@, sent),
    {
        self.send_frame_with_sequence(bytes, None, true, None, outcome)
    }

    /// Sends one message. An encoding error comes before all others.
    pub fn send(&mut self, message: &Message, outcome: SendOutcome) -> (sent: Result<()>)
        requires
            old(self).wf(),
        ensures
            final(self).wf(),
            match message@.encode_error() {
                Some(expected) => {
                    &&& sent matches Err(error)
                    &&& error@ == expected
                    &&& final(self)@ == old(self)@
                },
                None => old(self)@.sends(
                    message@.wire().len(),
                    false,
                    None,
                    true,
                    outcome,
                    final(self)@,
                    sent,
                ),
            },
    {
        match message.encode() {
            Ok(bytes) => self.send_frame(&bytes, outcome),
            Err(error) => Err(error),
        }
    }

    /// Sends one message with a sequence; it asks for a completion only when one is due.
    pub fn send_frame_tracked(&mut self, bytes: &[u8], sequence: u64, outcome: SendOutcome) -> (sent:
        Result<()>)
        requires
            old(self).wf(),
        ensures
            final(self).wf(),
            old(self)@.sends(
                bytes@.len(),
                false,
                Some(sequence),
                false,
                outcome,
                final(self)@,
                sent,
            ),
    {
        self.send_frame_with_sequence(bytes, Some(sequence), false, None, outcome)
    }

    /// Sends the last message of a run, which asks for a completion.
    pub fn send_frame_tracked_tail(&mut self, bytes: &[u8], sequence: u64, outcome: SendOutcome) -> (sent:
        Result<()>)
        requires
            old(self).wf(),
        ensures
            final(self).wf(),
            old(self)@.sends(bytes@.len(), false, Some(sequence), true, outcome, final(self)@, sent),
    {
        self.send_frame_with_sequence(bytes, Some(sequence), true, None, outcome)
    }

    /// Whether the range that all TX slots share may be filled.
    pub fn prepare_aliased_tx(&self, bytes: &[u8]) -> (allowed: Result<()>)
        requires
            self.wf(),
        ensures
            match allowed {
                Ok(()) => {
                    &&& self@.require_error(ConnectionState::Ready) is None
                    &&& self@.plane.pool.aliased_write_error(bytes@.len()) is None
                },
                Err(error) => if self@.require_error(ConnectionState::Ready) is Some {
                    self@.require_error(ConnectionState::Ready) == Some(error@)
                } else {
                    self@.plane.pool.aliased_write_error(bytes@.len()) == Some(error@)
                },
            },
    {
        match self.require(ConnectionState::Ready) {
            Ok(()) => {},
            Err(error) => {
                return Err(error);
            },
        }
        self.pool.prepare_aliased_tx(bytes)
    }

    /// Sends `length` bytes of the range that all TX slots share as a message of its own, which asks
    /// for a completion.
    pub fn send_prepared(&mut self, length: usize, outcome: SendOutcome) -> (sent: Result<()>)
        requires
            old(self).wf(),
        ensures
            final(self).wf(),
            old(self)@.sends(length as nat, true, None, true, outcome, final(self)@, sent),
    {
        let none: Vec<u8> = Vec::new();
        self.send_frame_with_sequence(&none, None, true, Some(length), outcome)
    }

    /// Sends `length` bytes of the range that all TX slots share.
    pub fn send_prepared_tracked(
        &mut self,
        length: usize,
        sequence: u64,
        is_tail: bool,
        outcome: SendOutcome,
    ) -> (sent: Result<()>)
        requires
            old(self).wf(),
        ensures
            final(self).wf(),
            old(self)@.sends(
                length as nat,
                true,
                Some(sequence),
                is_tail,
                outcome,
                final(self)@,
                sent,
            ),
    {
        let none: Vec<u8> = Vec::new();
        self.send_frame_with_sequence(&none, Some(sequence), is_tail, Some(length), outcome)
    }
}

/// How many bytes a send carries.
pub open spec fn sent_length(bytes: Seq<u8>, prepared: Option<usize>) -> nat {
    match prepared {
        Some(length) => length as nat,
        None => bytes.len(),
    }
}

impl ConnectionView {
    /// Whether one send leads to the connection `after` and gives `sent`.
    pub open spec fn sends(
        self,
        length: nat,
        prepared: bool,
        sequence: Option<u64>,
        force: bool,
        outcome: SendOutcome,
        after: ConnectionView,
        sent: Result<()>,
    ) -> bool {
        let (expected, given) = match self.send_refusal(length, prepared) {
            Some((error, pool)) => (self.with_pool(pool), Err::<(), ErrorView>(error)),
            None => self.send_one(length, sequence, force, outcome),
        };
        &&& after == expected
        &&& match sent {
            Ok(()) => given == Ok::<(), ErrorView>(()),
            Err(error) => given == Err::<(), ErrorView>(error@),
        }
    }
}

/// Taking a TX slot and giving it back leaves the pool as it was.
proof fn lemma_tx_round_trip(pool: PoolView)
    requires
        pool.wf(),
        pool.free_tx.len() > 0,
    ensures
        pool.after_allocate(SlotKind::Tx).after_release(SlotId::at(pool.free_tx.last())) == pool,
{
    let slot = SlotId::at(pool.free_tx.last());
    let taken = pool.after_allocate(SlotKind::Tx);
    slot.lemma_position();
    assert(pool.free_tx.contains(pool.free_tx.last()));
    assert(taken.free_tx.push(slot.position() as usize) =~= pool.free_tx);
    assert(taken.after_release(slot).states =~= pool.states);
}

} // verus!
