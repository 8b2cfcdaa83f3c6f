//! Taking completions in: what they do to the connection, and when a wait is over.

use vstd::prelude::*;

use super::{ConnectionState, ConnectionView, UrmaConnection};
use crate::buffer::model as pool_model;
use crate::buffer::{PoolView, RegisteredRxWindowLease, SlotId, SlotState};
use crate::completion;
use crate::completion::{
    check_deadline, CompletedRecv, CompletionEvent, EventView, PlaneView, PollerView,
};
use crate::error::{ErrorView, Result};
use crate::message::{Message, MessageView};
use crate::provider::{map_ffi_error, CompletionRecord, FfiError};
use crate::wr::WrToken;

verus! {

/// The number of receives among events.
pub open spec fn received(events: Seq<EventView>) -> nat
    decreases events.len(),
{
    if events.len() == 0 {
        0
    } else {
        received(events.drop_last()) + if events.last() is RecvCompleted {
            1nat
        } else {
            0nat
        }
    }
}

/// The messages among events, in order.
pub open spec fn messages(events: Seq<EventView>) -> Seq<Seq<u8>>
    decreases events.len(),
{
    if events.len() == 0 {
        Seq::empty()
    } else {
        match events.last() {
            EventView::RecvCompleted { slot, bytes } => messages(events.drop_last()).push(bytes),
            EventView::SendCompleted { slot } => messages(events.drop_last()),
        }
    }
}

/// The credit that is left after `count` completed receives.
pub open spec fn uncredited(credit: nat, count: nat) -> nat {
    if credit <= count {
        0
    } else {
        (credit - count) as nat
    }
}

/// Both sides after receive completions whose bytes stay in their slots, up to the first that fails.
pub open spec fn leased_all(plane: PlaneView, records: Seq<CompletionRecord>) -> (
    PlaneView,
    core::result::Result<Seq<CompletedRecv>, ErrorView>,
)
    decreases records.len(),
{
    if records.len() == 0 {
        (plane, Ok(Seq::empty()))
    } else {
        let (earlier, listed) = leased_all(plane, records.drop_last());
        match listed {
            Err(error) => (earlier, Err(error)),
            Ok(completed) => {
                let (after, outcome) = earlier.route_leased(records.last());
                match outcome {
                    Err(error) => (after, Err(error)),
                    Ok(last) => (after, Ok(completed.push(last))),
                }
            },
        }
    }
}

proof fn lemma_leased_stops(plane: PlaneView, records: Seq<CompletionRecord>, few: int)
    requires
        0 <= few <= records.len(),
        leased_all(plane, records.take(few)).1 is Err,
    ensures
        leased_all(plane, records) == leased_all(plane, records.take(few)),
    decreases records.len(),
{
    if few < records.len() {
        assert(records.drop_last().take(few) =~= records.take(few));
        lemma_leased_stops(plane, records.drop_last(), few);
    } else {
        assert(records.take(few) =~= records);
    }
}

impl ConnectionView {
    /// The same connection with other poller and pool contents.
    pub open spec fn with_plane(self, plane: PlaneView) -> Self {
        ConnectionView { plane, ..self }
    }

    /// The same connection with other poller contents.
    pub open spec fn with_poller(self, poller: PollerView) -> Self {
        self.with_plane(PlaneView { poller, ..self.plane })
    }

    /// Whether this is the connection after it handed over a message that it had kept.
    pub open spec fn handed_over(self, before: Self, frame: Seq<u8>) -> bool {
        &&& before.plane.poller.send_order.len() == 0
        &&& before.frames == seq![frame] + self.frames
        &&& self == (ConnectionView { frames: self.frames, ..before })
    }

    /// Both sides after a poll of one queue, and the events that it gave or the error.
    pub open spec fn queue_routed(
        self,
        recv_queue: bool,
        polled: core::result::Result<Vec<(CompletionRecord, Result<Vec<u8>>)>, FfiError>,
    ) -> (PlaneView, core::result::Result<Seq<EventView>, ErrorView>) {
        match polled {
            Err(failure) => (
                PlaneView {
                    poller: self.plane.poller.after_queue_poll(recv_queue, 1),
                    ..self.plane
                },
                Err(
                    failure.mapped(
                        if recv_queue {
                            "poll_recv_jfc"@
                        } else {
                            "poll_send_jfc"@
                        },
                    ),
                ),
            ),
            Ok(batch) => {
                let counted = PlaneView {
                    poller: self.plane.poller.after_queue_poll(recv_queue, batch@.len()),
                    ..self.plane
                };
                let routed = counted.route_all(
                    completion::poller::batch_records(batch@),
                    recv_queue,
                    completion::poller::batch_reads(batch@),
                );
                (routed.plane, routed.outcome)
            },
        }
    }

    /// The connection after a poll that gave `count` receives whose bytes stay in their slots.
    pub open spec fn polled_direct(self, count: nat, previous: Option<u128>, now: u128) -> Self {
        let poller = self.plane.poller;
        ConnectionView {
            credit: uncredited(self.credit, count),
            ..self.with_poller(
                if count == 0 {
                    poller.with_empty_poll().after_empty()
                } else {
                    poller.after_nonempty(count, previous, now)
                },
            )
        }
    }

    /// The connection after polling for receives whose bytes stay in their slots, and what the poll
    /// gives.
    pub open spec fn leased_poll(
        self,
        now: u128,
        polled: core::result::Result<Seq<CompletionRecord>, FfiError>,
    ) -> (Self, core::result::Result<Seq<CompletedRecv>, ErrorView>) {
        let previous = self.plane.poller.last_poll;
        let begun = self.plane.poller.after_begin(now);
        if self.require_error(ConnectionState::Ready) is Some {
            (self, Err(self.require_error(ConnectionState::Ready)->0))
        } else {
            match polled {
                Err(failure) => (
                    self.with_poller(begun.after_queue_poll(true, 1)).failed(),
                    Err(failure.mapped("poll_recv_jfc"@)),
                ),
                Ok(records) => {
                    let counted = PlaneView {
                        poller: begun.after_queue_poll(true, records.len()),
                        ..self.plane
                    };
                    let (after, outcome) = leased_all(counted, records);
                    match outcome {
                        Err(error) => (self.with_plane(after).failed(), Err(error)),
                        Ok(completed) => (
                            self.with_plane(after).polled_direct(completed.len(), previous, now),
                            Ok(completed),
                        ),
                    }
                },
            }
        }
    }
}

impl UrmaConnection {
    /// Begins a poll at `now`; gives the time at which the previous one began.
    pub fn begin_poll(&mut self, now: u128) -> (begun: Result<Option<u128>>)
        requires
            old(self).wf(),
        ensures
            final(self).wf(),
            match begun {
                Ok(previous) => {
                    &&& old(self)@.require_error(ConnectionState::Ready) is None
                    &&& previous == old(self)@.plane.poller.last_poll
                    &&& final(self)@ == old(self)@.with_poller(
                        old(self)@.plane.poller.after_begin(now),
                    )
                },
                Err(error) => {
                    &&& old(self)@.require_error(ConnectionState::Ready) == Some(error@)
                    &&& final(self)@ == old(self)@
                },
            },
    {
        let ghost before = self@;
        match self.require(ConnectionState::Ready) {
            Ok(()) => {},
            Err(error) => {
                return Err(error);
            },
        }
        let previous = self.poller.begin_poll(now);
        proof {
            before.plane.lemma_counters(self.poller@);
        }
        Ok(previous)
    }

    /// Whether a queue is to be polled: only one with outstanding work requests is.
    pub fn queue_is_active(&self, recv_queue: bool) -> (active: bool)
        ensures
            active == if recv_queue {
                self@.plane.poller.receives > 0
            } else {
                self@.plane.poller.send_order.len() > 0
            },
    {
        self.poller.queue_is_active(recv_queue)
    }

    /// Where the bytes of a completed receive lie, and how many there are, where it names a posted
    /// slot.
    pub fn recv_layout(&self, record: &CompletionRecord) -> (layout: Option<(u64, u32)>)
        requires
            self.wf(),
        ensures
            ({
                let pool = self@.plane.pool;
                let slot = WrToken::of_user_ctx(record.user_ctx).slot;
                let readable = WrToken::decode_error(record.user_ctx) is None && pool.recv_error(
                    slot,
                    record.completion_len as nat,
                ) is None && pool.open;
                match layout {
                    Some((offset, length)) => {
                        &&& readable
                        &&& offset == pool.offset(slot.position() as int)
                        &&& length == record.completion_len
                    },
                    None => !readable,
                }
            }),
    {
        match WrToken::decode(record.user_ctx) {
            Ok(token) => match self.pool.recv_completion_layout(token.slot, record.completion_len) {
                Ok(layout) => Some(layout),
                Err(_) => None,
            },
            Err(_) => None,
        }
    }

    /// Takes in what polling one queue gave: the records, each with what reading the bytes of its
    /// receive gave. A failure fails the connection.
    pub fn poll_queue(
        &mut self,
        recv_queue: bool,
        polled: core::result::Result<Vec<(CompletionRecord, Result<Vec<u8>>)>, FfiError>,
    ) -> (routed: Result<Vec<CompletionEvent>>)
        requires
            old(self).wf(),
        ensures
            final(self).wf(),
            ({
                let (plane, outcome) = old(self)@.queue_routed(recv_queue, polled);
                match routed {
                    Ok(events) => {
                        &&& outcome == Ok::<Seq<EventView>, ErrorView>(
                            completion::poller::event_views(events@),
                        )
                        &&& final(self)@ == old(self)@.with_plane(plane)
                    },
                    Err(error) => {
                        &&& outcome == Err::<Seq<EventView>, ErrorView>(error@)
                        &&& final(self)@ == old(self)@.with_plane(plane).failed()
                    },
                }
            }),
    {
        let routed = self.poller.poll_active(recv_queue, polled, &mut self.pool);
        if routed.is_err() {
            self.fail();
        }
        routed
    }

    /// Counts completed receives.
    fn use_credit(&mut self, count: usize)
        requires
            old(self).wf(),
        ensures
            final(self).wf(),
            final(self)@ == (ConnectionView {
                credit: uncredited(old(self)@.credit, count as nat),
                ..old(self)@
            }),
    {
        let ghost before = self@;
        let mut index: usize = 0;
        while index < count
            invariant
                self.wf(),
                index <= count,
                self@ == (ConnectionView {
                    credit: uncredited(before.credit, index as nat),
                    ..before
                }),
            decreases count - index,
        {
            self.receive_credit.completed();
            index += 1;
        }
    }

    /// Ends a poll whose queues gave these events.
    pub fn poll_once(
        &mut self,
        events: Vec<CompletionEvent>,
        previous: Option<u128>,
        now: u128,
    ) -> (polled: Vec<CompletionEvent>)
        requires
            old(self).wf(),
        ensures
            final(self).wf(),
            polled@ == events@,
            final(self)@ == (ConnectionView {
                credit: uncredited(
                    old(self)@.credit,
                    received(completion::poller::event_views(events@)),
                ),
                ..old(self)@.with_poller(
                    if events@.len() > 0 {
                        old(self)@.plane.poller.after_nonempty(events@.len(), previous, now)
                    } else {
                        old(self)@.plane.poller.after_empty().with_empty_poll()
                    },
                )
            }),
    {
        let ghost before = self@;
        let ghost views = completion::poller::event_views(events@);
        let _next = self.poller.after_first_poll(events.len(), previous, now);
        proof {
            before.plane.lemma_counters(self.poller@);
        }
        let ghost counted = self@;
        let mut index: usize = 0;
        let mut count: usize = 0;
        while index < events.len()
            invariant
                views == completion::poller::event_views(events@),
                count <= index <= events@.len(),
                count == received(views.take(index as int)),
            decreases events@.len() - index,
        {
            proof {
                let longer = views.take(index + 1);
                assert(longer.drop_last() =~= views.take(index as int));
                assert(longer.last() == events@[index as int]@);
            }
            if let CompletionEvent::RecvCompleted { .. } = &events[index] {
                count += 1;
            }
            index += 1;
        }
        assert(views.take(views.len() as int) =~= views);
        self.use_credit(count);
        events
    }

    /// Begins polling for receives that a consumer takes in place, for what polling the queue gave.
    pub fn begin_direct_poll(&mut self, now: u128, polled: core::result::Result<usize, FfiError>) -> (begun:
        Result<Option<u128>>)
        requires
            old(self).wf(),
        ensures
            final(self).wf(),
            ({
                let poller = old(self)@.plane.poller.after_begin(now);
                match begun {
                    Ok(previous) => {
                        &&& old(self)@.require_error(ConnectionState::Ready) is None
                        &&& polled matches Ok(count)
                        &&& previous == old(self)@.plane.poller.last_poll
                        &&& final(self)@ == old(self)@.with_poller(
                            poller.after_queue_poll(true, count as nat),
                        )
                    },
                    Err(error) => if old(self)@.require_error(ConnectionState::Ready) is Some {
                        &&& old(self)@.require_error(ConnectionState::Ready) == Some(error@)
                        &&& final(self)@ == old(self)@
                    } else {
                        &&& polled matches Err(failure)
                        &&& error@ == failure.mapped("poll_recv_jfc"@)
                        &&& final(self)@ == old(self)@.with_poller(
                            poller.after_queue_poll(true, 1),
                        ).failed()
                    },
                }
            }),
    {
        let ghost before = self@;
        let previous = match self.begin_poll(now) {
            Ok(previous) => previous,
            Err(error) => {
                return Err(error);
            },
        };
        let ghost begun = self@;
        match polled {
            Ok(count) => {
                self.poller.count_direct_queue_poll(count);
                proof {
                    begun.plane.lemma_counters(self.poller@);
                }
                Ok(previous)
            },
            Err(failure) => {
                self.poller.count_direct_queue_poll(1);
                proof {
                    begun.plane.lemma_counters(self.poller@);
                }
                self.fail();
                Err(map_ffi_error("poll_recv_jfc", failure))
            },
        }
    }

    /// Takes in one receive completion whose bytes a consumer took in place. A failure, the
    /// consumer's own among them, fails the connection.
    pub fn consume_recv(&mut self, record: CompletionRecord, borrowed: Result<Result<()>>) -> (consumed:
        Result<()>)
        requires
            old(self).wf(),
        ensures
            final(self).wf(),
            ({
                let (after, outcome) = old(self)@.plane.route_direct(
                    record,
                    completion::poller::consumed_view(borrowed),
                );
                match consumed {
                    Ok(()) => {
                        &&& outcome == Ok::<(), ErrorView>(())
                        &&& final(self)@ == old(self)@.with_plane(after)
                    },
                    Err(error) => {
                        &&& outcome == Err::<(), ErrorView>(error@)
                        &&& final(self)@ == old(self)@.with_plane(after).failed()
                    },
                }
            }),
    {
        let consumed = self.poller.route_recv_direct(record, borrowed, &mut self.pool);
        if consumed.is_err() {
            self.fail();
        }
        consumed
    }

    /// Ends a poll that gave `count` receives, each of which was consumed.
    pub fn poll_recv_direct(&mut self, count: usize, previous: Option<u128>, now: u128) -> (polled:
        usize)
        requires
            old(self).wf(),
        ensures
            final(self).wf(),
            polled == count,
            final(self)@ == old(self)@.polled_direct(count as nat, previous, now),
    {
        let ghost before = self@;
        self.poller.finish_direct_poll(count, previous, now);
        proof {
            before.plane.lemma_counters(self.poller@);
        }
        self.use_credit(count);
        count
    }

    /// Takes in receive completions whose bytes stay in their slots. A failure fails the connection.
    pub fn poll_recv_leased(
        &mut self,
        now: u128,
        polled: core::result::Result<Vec<CompletionRecord>, FfiError>,
    ) -> (completed: Result<Vec<CompletedRecv>>)
        requires
            old(self).wf(),
        ensures
            final(self).wf(),
            ({
                let records = match polled {
                    Ok(records) => Ok::<Seq<CompletionRecord>, FfiError>(records@),
                    Err(failure) => Err::<Seq<CompletionRecord>, FfiError>(failure),
                };
                let (after, outcome) = old(self)@.leased_poll(now, records);
                &&& final(self)@ == after
                &&& match completed {
                    Ok(completed) => outcome == Ok::<Seq<CompletedRecv>, ErrorView>(completed@),
                    Err(error) => outcome == Err::<Seq<CompletedRecv>, ErrorView>(error@),
                }
            }),
    {
        let ghost before = self@;
        let count: core::result::Result<usize, FfiError> = match &polled {
            Ok(records) => Ok(records.len()),
            Err(failure) => Err(*failure),
        };
        let previous = match self.begin_direct_poll(now, count) {
            Ok(previous) => previous,
            Err(error) => {
                return Err(error);
            },
        };
        let records = match polled {
            Ok(records) => records,
            Err(failure) => {
                assert(false);
                return Err(map_ffi_error("poll_recv_jfc", failure));
            },
        };
        let ghost counted = self@.plane;
        let mut completed: Vec<CompletedRecv> = Vec::new();
        let mut index: usize = 0;
        assert(completed@ =~= Seq::empty());
        while index < records.len()
            invariant
                self.wf(),
                index <= records@.len(),
                completed@.len() == index,
                polled is Ok,
                polled->Ok_0 == records,
                before == old(self)@,
                before.require_error(ConnectionState::Ready) is None,
                counted == (PlaneView {
                    poller: before.plane.poller.after_begin(now).after_queue_poll(
                        true,
                        records@.len(),
                    ),
                    ..before.plane
                }),
                self@ == before.with_plane(self@.plane),
                leased_all(counted, records@.take(index as int)) == (
                    self@.plane,
                    Ok::<Seq<CompletedRecv>, ErrorView>(completed@),
                ),
            decreases records@.len() - index,
        {
            proof {
                let longer = records@.take(index + 1);
                assert(longer.drop_last() =~= records@.take(index as int));
                assert(longer.last() == records@[index as int]);
            }
            match self.poller.route_recv_leased(records[index], &mut self.pool) {
                Ok(item) => {
                    completed.push(item);
                },
                Err(error) => {
                    proof {
                        lemma_leased_stops(counted, records@, index + 1);
                    }
                    self.fail();
                    return Err(error);
                },
            }
            index += 1;
        }
        assert(records@.take(records@.len() as int) =~= records@);
        let _counted: usize = self.poll_recv_direct(completed.len(), previous, now);
        Ok(completed)
    }

    /// Takes completed receives as one window.
    pub fn lease_completed_recvs(&mut self, completed: &Vec<CompletedRecv>) -> (leased: Result<
        RegisteredRxWindowLease,
    >)
        requires
            old(self).wf(),
        ensures
            final(self).wf(),
            ({
                let completions = completed_records(completed@);
                let pool = old(self)@.plane.pool;
                let slots = pool_model::window_slots(completions);
                let refused = pool.lease_request_error(completions);
                let moved = pool.after_moves(slots, SlotState::RecvCompleted, SlotState::Leased);
                let stuck = pool.moves_error(slots, SlotState::RecvCompleted, SlotState::Leased);
                match leased {
                    Ok(lease) => {
                        &&& refused is None && stuck is None
                        &&& lease@ == pool.window(completions)
                        &&& lease@.wf()
                        &&& final(self)@ == old(self)@.with_pool(
                            PoolView {
                                leases: if moved.leases < usize::MAX {
                                    moved.leases + 1
                                } else {
                                    usize::MAX as nat
                                },
                                ..moved
                            },
                        )
                    },
                    Err(error) => match refused {
                        Some(expected) => error@ == expected && final(self)@ == old(self)@,
                        None => stuck == Some(error@) && final(self)@ == old(self)@.with_pool(moved),
                    },
                }
            }),
    {
        let ghost before = self@;
        let mut records: Vec<(SlotId, Option<u64>, u32)> = Vec::new();
        while records.len() < completed.len()
            invariant
                records@.len() <= completed@.len(),
                records@ == completed_records(completed@).take(records@.len() as int),
            decreases completed@.len() - records@.len(),
        {
            let ghost done = records@.len() as int;
            let item = completed[records.len()];
            records.push((item.slot, item.sequence, item.length));
            assert(records@ =~= completed_records(completed@).take(done + 1));
        }
        assert(records@ =~= completed_records(completed@));
        let leased = self.pool.lease_completed_recv_window(&records);
        proof {
            let pool = before.plane.pool;
            let slots = pool_model::window_slots(records@);
            pool.lemma_moves_keep(slots, SlotState::RecvCompleted, SlotState::Leased);
            lemma_moves_keep_posted(pool, slots, SlotState::RecvCompleted, SlotState::Leased);
            lemma_posted_kept(before.plane, self.pool@);
        }
        leased
    }

    /// Takes a window back: its slots are free again.
    pub fn recycle_recv_lease(&mut self, lease: RegisteredRxWindowLease) -> (recycled: Result<usize>)
        requires
            old(self).wf(),
            lease@.wf(),
        ensures
            final(self).wf(),
            ({
                let pool = old(self)@.plane.pool;
                match recycled {
                    Ok(count) => {
                        &&& pool.recycle_error(lease@) is None
                        &&& count == lease@.slots.len()
                        &&& final(self)@ == old(self)@.with_pool(pool.after_recycle(lease@))
                    },
                    Err(error) => {
                        &&& pool.recycle_error(lease@) == Some(error@)
                        &&& final(self)@ == old(self)@
                    },
                }
            }),
    {
        let ghost before = self@;
        let ghost slots = lease@.slots;
        let recycled = self.pool.recycle_recv_lease(lease);
        proof {
            let pool = before.plane.pool;
            if recycled is Ok {
                pool.lemma_recycled_slots(slots);
                lemma_leased_are_leased(pool, slots);
                assert forall|i: int| 0 <= i < pool.states.len() && is_posted(pool.states[i]) implies
                    #[trigger] self.pool@.states[i] == pool.states[i] by {
                    let id = SlotId::at(i as usize);
                    id.lemma_position();
                    if slots.contains(id) {
                        let k = choose|k: int| 0 <= k < slots.len() && slots[k] == id;
                        assert(pool.state(slots[k]) == SlotState::Leased);
                    }
                    assert(pool.after_recycled_slots(slots).state(id) == pool.state(id));
                }
            }
            lemma_posted_kept(before.plane, self.pool@);
        }
        recycled
    }

    /// Keeps the messages among events for whoever waits for them.
    pub fn keep_frames(&mut self, events: Vec<CompletionEvent>)
        requires
            old(self).wf(),
        ensures
            final(self).wf(),
            final(self)@ == (ConnectionView {
                frames: old(self)@.frames + messages(completion::poller::event_views(events@)),
                ..old(self)@
            }),
    {
        let ghost before = self@;
        let ghost views = completion::poller::event_views(events@);
        let ghost mut done: int = 0;
        let mut remaining = events;
        assert(before.frames + messages(views.take(0)) =~= before.frames);
        while remaining.len() > 0
            invariant
                self.wf(),
                0 <= done <= views.len(),
                views == completion::poller::event_views(events@),
                remaining@ == events@.skip(done),
                self@ == (ConnectionView {
                    frames: before.frames + messages(views.take(done)),
                    ..before
                }),
            decreases remaining@.len(),
        {
            let ghost earlier = self@.frames;
            let event = remaining.remove(0);
            proof {
                let longer = views.take(done + 1);
                assert(longer.drop_last() =~= views.take(done));
                assert(longer.last() == event@);
                assert(remaining@ =~= events@.skip(done + 1));
            }
            match event {
                CompletionEvent::RecvCompleted { slot: _, bytes } => {
                    self.pending_frames.push_back(bytes);
                    assert(self@.frames =~= earlier.push(bytes@));
                    assert(self@.frames =~= before.frames + messages(views.take(done + 1)));
                },
                CompletionEvent::SendCompleted { slot: _ } => {},
            }
            proof {
                done = done + 1;
            }
        }
        assert(views.take(done) =~= views);
    }

    /// The next step of waiting for a message until `deadline`: the oldest message once no send is
    /// outstanding, or `None` where the queues are to be polled again.
    pub fn wait_for_frame(&mut self, now: u128, deadline: u128) -> (step: Result<Option<Vec<u8>>>)
        requires
            old(self).wf(),
        ensures
            final(self).wf(),
            step matches Ok(Some(frame)) ==> final(self)@.handed_over(old(self)@, frame@),
            ({
                let ready = old(self)@.plane.poller.send_order.len() == 0 && old(self)@.frames.len()
                    > 0;
                match step {
                    Ok(Some(frame)) => {
                        &&& ready
                        &&& frame@ == old(self)@.frames[0]
                        &&& final(self)@ == (ConnectionView {
                            frames: old(self)@.frames.drop_first(),
                            ..old(self)@
                        })
                    },
                    Ok(None) => !ready && now < deadline && final(self)@ == old(self)@,
                    Err(error) => {
                        &&& !ready
                        &&& now >= deadline
                        &&& error@ == (ErrorView::Timeout { operation: "wait_for_frame"@ })
                        &&& final(self)@ == old(self)@
                    },
                }
            }),
    {
        let ghost before = self@;
        if self.poller.outstanding_send() == 0 {
            if let Some(frame) = self.pending_frames.pop_front() {
                assert(self@.frames =~= before.frames.drop_first());
                assert(old(self)@.frames =~= seq![frame@] + self@.frames);
                return Ok(Some(frame));
            }
            assert(self@.frames =~= before.frames);
        }
        match check_deadline(now, deadline, "wait_for_frame") {
            Ok(()) => Ok(None),
            Err(error) => Err(error),
        }
    }

    /// The next step of waiting for a message until `deadline`, with the message decoded.
    pub fn wait_for_message(&mut self, now: u128, deadline: u128) -> (step: Result<Option<Message>>)
        requires
            old(self).wf(),
        ensures
            final(self).wf(),
            ({
                let ready = old(self)@.plane.poller.send_order.len() == 0 && old(self)@.frames.len()
                    > 0;
                let parsed = MessageView::parse(old(self)@.frames[0]);
                &&& match step {
                    Ok(Some(message)) => ready && parsed == Ok::<MessageView, ErrorView>(message@),
                    Ok(None) => !ready && now < deadline,
                    Err(error) => if ready {
                        parsed == Err::<MessageView, ErrorView>(error@)
                    } else {
                        now >= deadline && error@ == (ErrorView::Timeout {
                            operation: "wait_for_frame"@,
                        })
                    },
                }
                &&& final(self)@ == if ready {
                    ConnectionView { frames: old(self)@.frames.drop_first(), ..old(self)@ }
                } else {
                    old(self)@
                }
            }),
    {
        match self.wait_for_frame(now, deadline) {
            Ok(Some(frame)) => match Message::decode(&frame) {
                Ok(message) => Ok(Some(message)),
                Err(error) => Err(error),
            },
            Ok(None) => Ok(None),
            Err(error) => Err(error),
        }
    }

    /// The next step of waiting until no send is outstanding: whether that is so, or the queues are
    /// to be polled again.
    pub fn drain_completions(&self, now: u128, deadline: u128) -> (drained: Result<bool>)
        ensures
            match drained {
                Ok(true) => self@.plane.poller.send_order.len() == 0,
                Ok(false) => self@.plane.poller.send_order.len() > 0 && now < deadline,
                Err(error) => {
                    &&& self@.plane.poller.send_order.len() > 0
                    &&& now >= deadline
                    &&& error@ == (ErrorView::Timeout { operation: "drain completions"@ })
                },
            },
    {
        if self.poller.outstanding_send() == 0 {
            return Ok(true);
        }
        match check_deadline(now, deadline, "drain completions") {
            Ok(()) => Ok(false),
            Err(error) => Err(error),
        }
    }
}

/// Whether a slot in this state is held by a work request.
pub open spec fn is_posted(state: SlotState) -> bool {
    state == SlotState::PostedRecv || state == SlotState::SendPosted
}

proof fn lemma_posted_kept(plane: PlaneView, pool: PoolView)
    requires
        plane.wf(),
        pool.wf(),
        pool.config == plane.pool.config,
        pool.states.len() == plane.pool.states.len(),
        forall|i: int|
            0 <= i < pool.states.len() && is_posted(plane.pool.states[i])
                ==> #[trigger] pool.states[i] == plane.pool.states[i],
    ensures
        (PlaneView { pool, ..plane }).wf(),
{
    let after = PlaneView { pool, ..plane };
    assert forall|i: int|
        0 <= i < after.poller.table.len() && #[trigger] after.poller.table[i] is Some implies after.held(
        i,
    ) by {
        assert(plane.held(i));
        assert(pool.states[i] == plane.pool.states[i]);
    }
}

proof fn lemma_moves_keep_posted(pool: PoolView, ids: Seq<SlotId>, from: SlotState, to: SlotState)
    requires
        !is_posted(from),
    ensures
        pool.after_moves(ids, from, to).states.len() == pool.states.len(),
        forall|i: int|
            0 <= i < pool.states.len() && is_posted(pool.states[i])
                ==> #[trigger] pool.after_moves(ids, from, to).states[i] == pool.states[i],
    decreases ids.len(),
{
    if ids.len() > 0 {
        lemma_moves_keep_posted(pool, ids.drop_last(), from, to);
        let before = pool.after_moves(ids.drop_last(), from, to);
        assert forall|i: int| 0 <= i < pool.states.len() && is_posted(pool.states[i]) implies
            #[trigger] pool.after_moves(ids, from, to).states[i] == pool.states[i] by {
            assert(before.states[i] == pool.states[i]);
        }
    }
}

proof fn lemma_leased_are_leased(pool: PoolView, slots: Seq<SlotId>)
    requires
        pool.leased_error(slots) is None,
    ensures
        forall|k: int|
            0 <= k < slots.len() ==> pool.state(#[trigger] slots[k]) == SlotState::Leased,
    decreases slots.len(),
{
    if slots.len() > 0 {
        lemma_leased_are_leased(pool, slots.drop_last());
        assert forall|k: int| 0 <= k < slots.len() implies pool.state(#[trigger] slots[k])
            == SlotState::Leased by {
            if k < slots.len() - 1 {
                assert(slots.drop_last()[k] == slots[k]);
            }
        }
    }
}

/// Completed receives as the pool takes them.
pub open spec fn completed_records(completed: Seq<CompletedRecv>) -> Seq<(SlotId, Option<u64>, u32)> {
    completed.map_values(|item: CompletedRecv| (item.slot, item.sequence, item.length))
}

} // verus!
