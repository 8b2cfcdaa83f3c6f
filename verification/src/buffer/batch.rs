//! Taking, posting and giving back several slots at once.

use vstd::prelude::*;

use super::model;
use super::model::PoolView;
use super::pool::UrmaBufferPool;
use super::{SlotId, SlotKind, SlotState};

verus! {

impl PoolView {
    /// The number of free slots of a direction.
    pub open spec fn free_count(self, kind: SlotKind) -> nat {
        match kind {
            SlotKind::Tx => self.free_tx.len(),
            SlotKind::Rx => self.free_rx.len(),
        }
    }

    /// The pool after `count` allocations.
    pub open spec fn after_allocations(self, kind: SlotKind, count: nat) -> Self
        decreases count,
    {
        if count == 0 {
            self
        } else {
            self.after_allocations(kind, (count - 1) as nat).after_allocate(kind)
        }
    }

    /// The slots that `count` allocations give, in order: TX slots from the end of their free list,
    /// RX slots from the front of theirs.
    pub open spec fn allocations(self, kind: SlotKind, count: nat) -> Seq<SlotId> {
        Seq::new(
            count,
            |k: int|
                match kind {
                    SlotKind::Tx => SlotId::at(self.free_tx[self.free_tx.len() - 1 - k]),
                    SlotKind::Rx => SlotId::at(self.free_rx[k]),
                },
        )
    }

    /// The pool after each slot was marked as posted.
    pub open spec fn after_posts(self, slots: Seq<SlotId>, kind: SlotKind) -> Self
        decreases slots.len(),
    {
        if slots.len() == 0 {
            self
        } else {
            self.after_posts(slots.drop_last(), kind).with_state(
                slots.last(),
                model::posted_state(kind),
            )
        }
    }

    /// Whether the slots are distinct slots of a direction, each in the given state.
    pub open spec fn holds(self, slots: Seq<SlotId>, kind: SlotKind, state: SlotState) -> bool {
        &&& slots.no_duplicates()
        &&& forall|k: int|
            0 <= k < slots.len() ==> self.has(#[trigger] slots[k]) && self.kind(
                slots[k].position() as int,
            ) == kind && self.state(slots[k]) == state
    }

    /// Whether the pool differs from `other` at most in the states of `slots` and in free lists.
    pub open spec fn differs_at(self, other: Self, slots: Seq<SlotId>) -> bool {
        &&& self == (PoolView {
            states: self.states,
            free_tx: self.free_tx,
            free_rx: self.free_rx,
            ..other
        })
        &&& self.states.len() == other.states.len()
        &&& forall|i: int|
            0 <= i < other.states.len() && !slots.contains(SlotId::at(i as usize))
                ==> #[trigger] self.states[i] == other.states[i]
    }

    /// Allocations give distinct slots, keep the invariant and change nothing else.
    pub proof fn lemma_allocations(self, kind: SlotKind, count: nat)
        requires
            self.wf(),
            count <= self.free_count(kind),
        ensures
            self.after_allocations(kind, count).wf(),
            self.after_allocations(kind, count).holds(
                self.allocations(kind, count),
                kind,
                SlotState::Allocated,
            ),
            self.holds(self.allocations(kind, count), kind, SlotState::Free),
            self.after_allocations(kind, count).differs_at(self, self.allocations(kind, count)),
            kind == SlotKind::Tx ==> {
                &&& self.after_allocations(kind, count).free_tx == self.free_tx.take(
                    self.free_tx.len() - count,
                )
                &&& self.after_allocations(kind, count).free_rx == self.free_rx
            },
            kind == SlotKind::Rx ==> {
                &&& self.after_allocations(kind, count).free_rx == self.free_rx.skip(count as int)
                &&& self.after_allocations(kind, count).free_tx == self.free_tx
            },
        decreases count,
    {
        let slots = self.allocations(kind, count);
        if count == 0 {
            assert(self.free_tx.take(self.free_tx.len() as int) =~= self.free_tx);
            assert(self.free_rx.skip(0) =~= self.free_rx);
        } else {
            let fewer = (count - 1) as nat;
            self.lemma_allocations(kind, fewer);
            let before = self.after_allocations(kind, fewer);
            let after = self.after_allocations(kind, count);
            let earlier = self.allocations(kind, fewer);
            let last = slots.last();
            let index = before.next_free(kind)->0;
            assert(slots.drop_last() =~= earlier);
            assert(index == (match kind {
                SlotKind::Tx => self.free_tx[self.free_tx.len() - count],
                SlotKind::Rx => self.free_rx[count - 1],
            }));
            assert(last == SlotId::at(index));
            last.lemma_position();
            before.lemma_allocate(kind);
            match kind {
                SlotKind::Tx => {
                    assert(before.free_tx.drop_last() =~= self.free_tx.take(
                        self.free_tx.len() - count,
                    ));
                },
                SlotKind::Rx => {
                    assert(before.free_rx.drop_first() =~= self.free_rx.skip(count as int));
                },
            }
            assert forall|k: int| 0 <= k < earlier.len() implies earlier[k] != last by {
                assert(before.state(earlier[k]) == SlotState::Allocated);
            }
            assert forall|k: int| 0 <= k < slots.len() implies after.has(#[trigger] slots[k])
                && after.kind(slots[k].position() as int) == kind && after.state(slots[k])
                == SlotState::Allocated && self.has(slots[k]) && self.kind(
                slots[k].position() as int,
            ) == kind && self.state(slots[k]) == SlotState::Free by {
                if k < earlier.len() {
                    assert(slots[k] == earlier[k]);
                    assert(before.state(earlier[k]) == SlotState::Allocated);
                    assert(self.state(earlier[k]) == SlotState::Free);
                } else {
                    assert(!earlier.contains(last));
                    assert(before.states[index as int] == self.states[index as int]);
                }
            }
            assert forall|i: int, j: int|
                0 <= i < slots.len() && 0 <= j < slots.len() && i != j implies slots[i]
                != slots[j] by {
                if i < earlier.len() && j < earlier.len() {
                    assert(earlier[i] != earlier[j]);
                } else if i < earlier.len() {
                    assert(slots[i] == earlier[i]);
                } else {
                    assert(slots[j] == earlier[j]);
                }
            }
            assert forall|i: int|
                0 <= i < self.states.len() && !slots.contains(
                    SlotId::at(i as usize),
                ) implies #[trigger] after.states[i] == self.states[i] by {
                let id = SlotId::at(i as usize);
                assert(slots[slots.len() - 1] == last);
                assert(id != last);
                assert(!earlier.contains(id)) by {
                    if earlier.contains(id) {
                        let k = choose|k: int| 0 <= k < earlier.len() && earlier[k] == id;
                        assert(slots[k] == id);
                    }
                }
                assert(before.states[i] == self.states[i]);
                assert(i != index);
            }
        }
    }

    /// Marking distinct allocated slots as posted keeps the invariant and changes nothing else.
    pub proof fn lemma_posts(self, slots: Seq<SlotId>, kind: SlotKind)
        requires
            self.wf(),
            self.holds(slots, kind, SlotState::Allocated),
        ensures
            self.after_posts(slots, kind).wf(),
            self.after_posts(slots, kind).holds(slots, kind, model::posted_state(kind)),
            self.after_posts(slots, kind).differs_at(self, slots),
            self.after_posts(slots, kind).free_tx == self.free_tx,
            self.after_posts(slots, kind).free_rx == self.free_rx,
        decreases slots.len(),
    {
        if slots.len() > 0 {
            let earlier = slots.drop_last();
            let last = slots.last();
            assert(slots[slots.len() - 1] == last);
            assert(self.holds(earlier, kind, SlotState::Allocated)) by {
                assert forall|k: int| 0 <= k < earlier.len() implies self.has(#[trigger] earlier[k])
                    && self.kind(earlier[k].position() as int) == kind && self.state(earlier[k])
                    == SlotState::Allocated by {
                    assert(slots[k] == earlier[k]);
                }
            }
            self.lemma_posts(earlier, kind);
            let before = self.after_posts(earlier, kind);
            let after = self.after_posts(slots, kind);
            last.lemma_position();
            assert(!earlier.contains(last));
            assert(before.states[last.position() as int] == self.states[last.position() as int]);
            before.lemma_with_state(last, model::posted_state(kind));
            assert forall|k: int| 0 <= k < slots.len() implies after.has(#[trigger] slots[k])
                && after.kind(slots[k].position() as int) == kind && after.state(slots[k])
                == model::posted_state(kind) by {
                if k < earlier.len() {
                    assert(earlier[k] == slots[k]);
                    earlier[k].lemma_position();
                    assert(before.state(earlier[k]) == model::posted_state(kind));
                }
            }
            assert forall|i: int|
                0 <= i < self.states.len() && !slots.contains(
                    SlotId::at(i as usize),
                ) implies #[trigger] after.states[i] == self.states[i] by {
                let id = SlotId::at(i as usize);
                assert(!earlier.contains(id)) by {
                    if earlier.contains(id) {
                        let k = choose|k: int| 0 <= k < earlier.len() && earlier[k] == id;
                        assert(slots[k] == id);
                    }
                }
                assert(before.states[i] == self.states[i]);
                assert(id != last);
            }
        }
    }

    /// Giving distinct busy slots back frees them, keeps the invariant and changes nothing else.
    pub proof fn lemma_give_back(self, slots: Seq<SlotId>)
        requires
            self.wf(),
            slots.no_duplicates(),
            forall|k: int|
                0 <= k < slots.len() ==> self.has(#[trigger] slots[k]) && self.state(slots[k])
                    != SlotState::Free,
        ensures
            self.after_recycled_slots(slots).wf(),
            self.after_recycled_slots(slots).differs_at(self, slots),
            forall|k: int|
                0 <= k < slots.len() ==> self.after_recycled_slots(slots).state(#[trigger] slots[k])
                    == SlotState::Free,
        decreases slots.len(),
    {
        if slots.len() > 0 {
            let earlier = slots.drop_last();
            let last = slots.last();
            assert(slots[slots.len() - 1] == last);
            assert forall|k: int| 0 <= k < earlier.len() implies self.has(#[trigger] earlier[k])
                && self.state(earlier[k]) != SlotState::Free by {
                assert(slots[k] == earlier[k]);
            }
            self.lemma_give_back(earlier);
            let before = self.after_recycled_slots(earlier);
            let after = self.after_recycled_slots(slots);
            last.lemma_position();
            assert(!earlier.contains(last));
            assert(before.states[last.position() as int] == self.states[last.position() as int]);
            let done = before.with_state(last, SlotState::RecvCompleted);
            before.lemma_with_state(last, SlotState::RecvCompleted);
            done.lemma_release(last);
            assert(done.after_release(last) =~= before.after_release(last));
            assert forall|k: int| 0 <= k < slots.len() implies after.state(#[trigger] slots[k])
                == SlotState::Free by {
                if k < earlier.len() {
                    assert(earlier[k] == slots[k]);
                    earlier[k].lemma_position();
                    assert(before.state(earlier[k]) == SlotState::Free);
                }
            }
            assert forall|i: int|
                0 <= i < self.states.len() && !slots.contains(
                    SlotId::at(i as usize),
                ) implies #[trigger] after.states[i] == self.states[i] by {
                let id = SlotId::at(i as usize);
                assert(!earlier.contains(id)) by {
                    if earlier.contains(id) {
                        let k = choose|k: int| 0 <= k < earlier.len() && earlier[k] == id;
                        assert(slots[k] == id);
                    }
                }
                assert(before.states[i] == self.states[i]);
                assert(id != last);
            }
        }
    }
}

/// Taking slots and giving them all back, posted in between or not, leaves every slot in the state
/// that it had: an abandoned post loses no slot.
pub proof fn abandoned_posts_lose_no_slot(pool: PoolView, kind: SlotKind, count: nat)
    requires
        pool.wf(),
        count <= pool.free_count(kind),
    ensures
        ({
            let slots = pool.allocations(kind, count);
            let allocated = pool.after_allocations(kind, count);
            let posted = allocated.after_posts(slots, kind);
            &&& allocated.after_recycled_slots(slots).states == pool.states
            &&& allocated.after_recycled_slots(slots).wf()
            &&& posted.after_recycled_slots(slots).states == pool.states
            &&& posted.after_recycled_slots(slots).wf()
        }),
{
    let slots = pool.allocations(kind, count);
    let allocated = pool.after_allocations(kind, count);
    let posted = allocated.after_posts(slots, kind);
    pool.lemma_allocations(kind, count);
    allocated.lemma_posts(slots, kind);
    allocated.lemma_give_back(slots);
    posted.lemma_give_back(slots);
    lemma_same_states(pool, allocated, allocated.after_recycled_slots(slots), slots, kind);
    lemma_same_states(pool, posted, posted.after_recycled_slots(slots), slots, kind);
}

proof fn lemma_same_states(
    first: PoolView,
    middle: PoolView,
    last: PoolView,
    slots: Seq<SlotId>,
    kind: SlotKind,
)
    requires
        first.wf(),
        first.holds(slots, kind, SlotState::Free),
        first.states.len() == middle.states.len(),
        forall|i: int|
            0 <= i < first.states.len() && !slots.contains(SlotId::at(i as usize))
                ==> #[trigger] middle.states[i] == first.states[i],
        last.differs_at(middle, slots),
        forall|k: int|
            0 <= k < slots.len() ==> last.state(#[trigger] slots[k]) == SlotState::Free,
    ensures
        last.states == first.states,
{
    assert forall|i: int| 0 <= i < first.states.len() implies #[trigger] last.states[i]
        == first.states[i] by {
        let id = SlotId::at(i as usize);
        id.lemma_position();
        if slots.contains(id) {
            let k = choose|k: int| 0 <= k < slots.len() && slots[k] == id;
            assert(last.state(slots[k]) == SlotState::Free);
            assert(first.state(slots[k]) == SlotState::Free);
        } else {
            assert(middle.states[i] == first.states[i]);
        }
    }
    assert(last.states =~= first.states);
}

impl UrmaBufferPool {
    /// Takes `count` free slots, or none where there are too few or the pool has stopped.
    pub fn allocate_many(&mut self, kind: SlotKind, count: usize) -> (slots: Option<Vec<SlotId>>)
        requires
            old(self).wf(),
            count > 0,
        ensures
            final(self).wf(),
            match slots {
                Some(slots) => {
                    &&& old(self)@.accepting
                    &&& count <= old(self)@.free_count(kind)
                    &&& slots@ == old(self)@.allocations(kind, count as nat)
                    &&& final(self)@ == old(self)@.after_allocations(kind, count as nat)
                },
                None => {
                    &&& !old(self)@.accepting || count > old(self)@.free_count(kind)
                    &&& final(self)@ == old(self)@
                },
            },
    {
        let ghost before = self@;
        if !self.is_accepting() || self.free_slots(kind) < count {
            return None;
        }
        let mut slots: Vec<SlotId> = Vec::new();
        while slots.len() < count
            invariant
                self.wf(),
                before.wf(),
                before.accepting,
                count <= before.free_count(kind),
                slots@.len() <= count,
                slots@ == before.allocations(kind, slots@.len()),
                self@ == before.after_allocations(kind, slots@.len()),
            decreases count - slots@.len(),
        {
            let ghost taken = slots@.len();
            proof {
                before.lemma_allocations(kind, taken);
                before.lemma_allocations(kind, taken + 1);
            }
            match self.allocate(kind) {
                Some(id) => {
                    proof {
                        id.lemma_position();
                    }
                    slots.push(id);
                    assert(slots@ =~= before.allocations(kind, taken + 1));
                },
                None => {
                    assert(false);
                    return None;
                },
            }
        }
        Some(slots)
    }

    /// Marks distinct allocated slots as posted.
    pub fn post_many(&mut self, slots: &Vec<SlotId>, kind: SlotKind)
        requires
            old(self).wf(),
            old(self)@.holds(slots@, kind, SlotState::Allocated),
        ensures
            final(self).wf(),
            final(self)@ == old(self)@.after_posts(slots@, kind),
    {
        let ghost before = self@;
        let mut index: usize = 0;
        while index < slots.len()
            invariant
                self.wf(),
                before.wf(),
                before.holds(slots@, kind, SlotState::Allocated),
                index <= slots@.len(),
                self@ == before.after_posts(slots@.take(index as int), kind),
            decreases slots@.len() - index,
        {
            let id = slots[index];
            proof {
                let done = slots@.take(index as int);
                let longer = slots@.take(index + 1);
                assert(longer.drop_last() =~= done);
                assert(longer.last() == id);
                assert(before.holds(done, kind, SlotState::Allocated)) by {
                    assert forall|k: int| 0 <= k < done.len() implies before.has(
                        #[trigger] done[k],
                    ) && before.kind(done[k].position() as int) == kind && before.state(done[k])
                        == SlotState::Allocated by {
                        assert(slots@[k] == done[k]);
                    }
                }
                before.lemma_posts(done, kind);
                id.lemma_position();
                assert(!done.contains(id));
                assert(self@.states[id.position() as int] == before.states[id.position() as int]);
                assert(before.has(slots@[index as int]));
            }
            let marked = self.mark_posted(id, kind);
            assert(marked is Ok);
            index += 1;
        }
        assert(slots@.take(slots@.len() as int) =~= slots@);
    }

    /// Gives distinct slots back that are allocated, or posted and not accepted by the provider.
    pub fn give_back(&mut self, slots: &Vec<SlotId>, from: usize, kind: SlotKind, posted: bool)
        requires
            old(self).wf(),
            from <= slots@.len(),
            old(self)@.holds(
                slots@.skip(from as int),
                kind,
                if posted {
                    model::posted_state(kind)
                } else {
                    SlotState::Allocated
                },
            ),
        ensures
            final(self).wf(),
            final(self)@ == old(self)@.after_recycled_slots(slots@.skip(from as int)),
    {
        let ghost before = self@;
        let ghost rest = slots@.skip(from as int);
        let ghost state = if posted {
            model::posted_state(kind)
        } else {
            SlotState::Allocated
        };
        let mut index: usize = from;
        while index < slots.len()
            invariant
                self.wf(),
                before.wf(),
                from <= index <= slots@.len(),
                rest == slots@.skip(from as int),
                state == (if posted {
                    model::posted_state(kind)
                } else {
                    SlotState::Allocated
                }),
                before.holds(rest, kind, state),
                self@ == before.after_recycled_slots(rest.take(index - from)),
            decreases slots@.len() - index,
        {
            let id = slots[index];
            let ghost earlier = self@;
            proof {
                let done = rest.take(index - from);
                let longer = rest.take(index - from + 1);
                assert(longer.drop_last() =~= done);
                assert(longer.last() == id);
                assert(rest[index - from] == id);
                assert forall|k: int| 0 <= k < done.len() implies before.has(#[trigger] done[k])
                    && before.state(done[k]) != SlotState::Free by {
                    assert(rest[k] == done[k]);
                }
                before.lemma_give_back(done);
                id.lemma_position();
                assert(!done.contains(id));
                assert(earlier.states[id.position() as int] == before.states[id.position() as int]);
            }
            if posted {
                let undone = self.rollback_post(id, kind);
                assert(undone is Ok);
            }
            let released = self.release(id);
            assert(released is Ok);
            assert(self@ =~= earlier.after_release(id));
            index += 1;
        }
        assert(rest.take(rest.len() as int) =~= rest);
    }
}

} // verus!
