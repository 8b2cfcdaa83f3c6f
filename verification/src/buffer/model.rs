//! What a slot pool knows, and what each of its operations does to that.

use vstd::prelude::*;

use super::{BufferPoolConfig, SlotId, SlotKind, SlotState};
use crate::error::ErrorView;
use crate::text;

verus! {

/// What a pool knows of its slots.
#[verifier::ext_equal]
pub struct PoolView {
    /// How the segment is divided.
    pub config: BufferPoolConfig,
    /// The state of each slot, TX slots first.
    pub states: Seq<SlotState>,
    /// The free TX slots; the last is allocated first.
    pub free_tx: Seq<usize>,
    /// The free RX slots; the first is allocated first.
    pub free_rx: Seq<usize>,
    /// Whether slots are still given out.
    pub accepting: bool,
    /// Whether the segment is still registered.
    pub open: bool,
    /// How many receive windows are leased out.
    pub leases: nat,
    /// What tells this pool's leases from another pool's.
    pub pool_id: u64,
}

/// The error for a slot position that the pool does not have, on a completion path.
pub open spec fn completion_outside() -> ErrorView {
    ErrorView::Protocol("completion slot is outside buffer pool"@)
}

/// The error for a slot position that the pool does not have.
pub open spec fn slot_outside() -> ErrorView {
    ErrorView::InvalidConfiguration("slot id is outside buffer pool"@)
}

/// The error for a closed segment.
pub open spec fn segment_closed() -> ErrorView {
    ErrorView::InvalidConfiguration("registered Segment is closed"@)
}

/// The state of a slot that a work request of the given direction may reference.
pub open spec fn posted_state(kind: SlotKind) -> SlotState {
    match kind {
        SlotKind::Tx => SlotState::SendPosted,
        SlotKind::Rx => SlotState::PostedRecv,
    }
}

/// Whether `list` holds, once each, the free slots from `low` up to `high`.
pub open spec fn lists_free(list: Seq<usize>, states: Seq<SlotState>, low: int, high: int) -> bool {
    &&& list.no_duplicates()
    &&& forall|k: int|
        0 <= k < list.len() ==> low <= #[trigger] list[k] < high && states[list[k] as int]
            == SlotState::Free
    &&& forall|i: int|
        low <= i < high && #[trigger] states[i] == SlotState::Free ==> list.contains(i as usize)
}

impl PoolView {
    /// The pool's invariant: the layout is valid, and each free list holds exactly the free slots
    /// of its direction, once each.
    pub open spec fn wf(self) -> bool {
        &&& self.config.layout_error() is None
        &&& self.config.tx_slot_count + self.config.rx_slot_count <= usize::MAX
        &&& self.states.len() == self.config.tx_slot_count + self.config.rx_slot_count
        &&& lists_free(self.free_tx, self.states, 0, self.tx())
        &&& lists_free(self.free_rx, self.states, self.tx(), self.states.len() as int)
    }

    /// The number of TX slots.
    pub open spec fn tx(self) -> int {
        self.config.tx_slot_count as int
    }

    /// The direction of the slot at `i`.
    pub open spec fn kind(self, i: int) -> SlotKind {
        if i < self.tx() {
            SlotKind::Tx
        } else {
            SlotKind::Rx
        }
    }

    /// Where the slot at `i` starts in the segment.
    pub open spec fn offset(self, i: int) -> int {
        self.config.slot_size * self.physical(i)
    }

    /// How many slots' worth of memory lie before the slot at `i`.
    pub open spec fn physical(self, i: int) -> int {
        if i >= self.tx() {
            self.config.physical_tx_slots() + (i - self.tx())
        } else if self.config.alias_tx_slots {
            0
        } else {
            i
        }
    }

    /// Whether the pool has a slot at this position.
    pub open spec fn has(self, id: SlotId) -> bool {
        id.position() < self.states.len()
    }

    /// The state of a slot.
    pub open spec fn state(self, id: SlotId) -> SlotState {
        self.states[id.position() as int]
    }

    /// The pool with one slot in another state.
    pub open spec fn with_state(self, id: SlotId, state: SlotState) -> Self {
        PoolView { states: self.states.update(id.position() as int, state), ..self }
    }

    /// The slot that an allocation takes, if there is one.
    pub open spec fn next_free(self, kind: SlotKind) -> Option<usize> {
        match kind {
            SlotKind::Tx => if self.free_tx.len() > 0 {
                Some(self.free_tx.last())
            } else {
                None
            },
            SlotKind::Rx => if self.free_rx.len() > 0 {
                Some(self.free_rx[0])
            } else {
                None
            },
        }
    }

    /// The pool after an allocation.
    pub open spec fn after_allocate(self, kind: SlotKind) -> Self {
        let index = self.next_free(kind)->0 as int;
        match kind {
            SlotKind::Tx => PoolView {
                states: self.states.update(index, SlotState::Allocated),
                free_tx: self.free_tx.drop_last(),
                ..self
            },
            SlotKind::Rx => PoolView {
                states: self.states.update(index, SlotState::Allocated),
                free_rx: self.free_rx.drop_first(),
                ..self
            },
        }
    }

    /// Whether a slot in this state may be released.
    pub open spec fn releasable(state: SlotState) -> bool {
        state == SlotState::Allocated || state == SlotState::RecvCompleted || state
            == SlotState::SendCompleted
    }

    /// The error that releasing a slot fails with, if it fails.
    pub open spec fn release_error(self, id: SlotId) -> Option<ErrorView> {
        if !self.has(id) {
            Some(ErrorView::InvalidConfiguration("slot id is outside this buffer pool"@))
        } else if !Self::releasable(self.state(id)) {
            Some(
                ErrorView::InvalidConfiguration(
                    "slot cannot be released while a WR may still reference it"@,
                ),
            )
        } else {
            None
        }
    }

    /// The pool after a release.
    pub open spec fn after_release(self, id: SlotId) -> Self {
        let freed = self.with_state(id, SlotState::Free);
        match self.kind(id.position() as int) {
            SlotKind::Tx => PoolView { free_tx: self.free_tx.push(id.position() as usize), ..freed },
            SlotKind::Rx => PoolView { free_rx: self.free_rx.push(id.position() as usize), ..freed },
        }
    }

    /// The pool after releasing the slots one by one, up to the first that cannot be released.
    pub open spec fn after_releases(self, ids: Seq<SlotId>) -> Self
        decreases ids.len(),
    {
        if ids.len() == 0 {
            self
        } else {
            let before = self.after_releases(ids.drop_last());
            if self.releases_error(ids.drop_last()) is Some || before.release_error(ids.last()) is Some {
                before
            } else {
                before.after_release(ids.last())
            }
        }
    }

    /// The error of the first slot that cannot be released.
    pub open spec fn releases_error(self, ids: Seq<SlotId>) -> Option<ErrorView>
        decreases ids.len(),
    {
        if ids.len() == 0 {
            None
        } else if self.releases_error(ids.drop_last()) is Some {
            self.releases_error(ids.drop_last())
        } else {
            self.after_releases(ids.drop_last()).release_error(ids.last())
        }
    }

    /// The error that moving a slot between two states fails with, if it fails.
    pub open spec fn transition_error(self, id: SlotId, from: SlotState) -> Option<ErrorView> {
        if !self.has(id) {
            Some(completion_outside())
        } else if self.state(id) != from {
            Some(
                ErrorView::Protocol(
                    "slot "@ + text::decimal(id.position()) + " state "@ + self.state(id).name()
                        + ", expected "@ + from.name(),
                ),
            )
        } else {
            None
        }
    }
}

proof fn lemma_take_last(list: Seq<usize>, states: Seq<SlotState>, low: int, high: int)
    requires
        lists_free(list, states, low, high),
        0 <= low <= high <= states.len() <= usize::MAX,
        list.len() > 0,
    ensures
        lists_free(
            list.drop_last(),
            states.update(list.last() as int, SlotState::Allocated),
            low,
            high,
        ),
{
    let rest = list.drop_last();
    let after = states.update(list.last() as int, SlotState::Allocated);
    assert forall|i: int| low <= i < high && #[trigger] after[i] == SlotState::Free implies
        rest.contains(i as usize) by {
        assert(states[i] == SlotState::Free);
        let k = choose|k: int| 0 <= k < list.len() && list[k] == i as usize;
        assert(k < rest.len());
        assert(rest[k] == i as usize);
    }
}

proof fn lemma_take_first(list: Seq<usize>, states: Seq<SlotState>, low: int, high: int)
    requires
        lists_free(list, states, low, high),
        0 <= low <= high <= states.len() <= usize::MAX,
        list.len() > 0,
    ensures
        lists_free(
            list.drop_first(),
            states.update(list[0] as int, SlotState::Allocated),
            low,
            high,
        ),
{
    let rest = list.drop_first();
    let after = states.update(list[0] as int, SlotState::Allocated);
    assert forall|i: int| low <= i < high && #[trigger] after[i] == SlotState::Free implies
        rest.contains(i as usize) by {
        assert(states[i] == SlotState::Free);
        let k = choose|k: int| 0 <= k < list.len() && list[k] == i as usize;
        assert(k > 0);
        assert(rest[k - 1] == i as usize);
    }
}

proof fn lemma_list_after_free(
    list: Seq<usize>,
    states: Seq<SlotState>,
    low: int,
    high: int,
    index: usize,
)
    requires
        lists_free(list, states, low, high),
        0 <= low <= index < high <= states.len() <= usize::MAX,
        states[index as int] != SlotState::Free,
    ensures
        lists_free(
            list.push(index),
            states.update(index as int, SlotState::Free),
            low,
            high,
        ),
{
    let longer = list.push(index);
    let after = states.update(index as int, SlotState::Free);
    assert(longer[list.len() as int] == index);
    assert forall|i: int| low <= i < high && #[trigger] after[i] == SlotState::Free implies
        longer.contains(i as usize) by {
        if i != index {
            assert(states[i] == SlotState::Free);
            let k = choose|k: int| 0 <= k < list.len() && list[k] == i as usize;
            assert(longer[k] == i as usize);
        }
    }
}

proof fn lemma_list_unaffected(
    list: Seq<usize>,
    states: Seq<SlotState>,
    low: int,
    high: int,
    index: int,
    state: SlotState,
)
    requires
        lists_free(list, states, low, high),
        0 <= low <= high <= states.len() <= usize::MAX,
        0 <= index < states.len(),
        (low <= index < high) ==> (states[index] != SlotState::Free && state != SlotState::Free),
    ensures
        lists_free(list, states.update(index, state), low, high),
{
    let after = states.update(index, state);
    assert forall|i: int| low <= i < high && #[trigger] after[i] == SlotState::Free implies
        list.contains(i as usize) by {
        assert(states[i] == SlotState::Free);
    }
}

impl PoolView {
    /// A pool with every slot free.
    pub open spec fn fresh(config: BufferPoolConfig, pool_id: u64) -> Self {
        let tx = config.tx_slot_count as int;
        PoolView {
            config,
            states: Seq::new(
                (tx + config.rx_slot_count) as nat,
                |i: int| SlotState::Free,
            ),
            free_tx: Seq::new(tx as nat, |k: int| (tx - 1 - k) as usize),
            free_rx: Seq::new(config.rx_slot_count as nat, |k: int| (tx + k) as usize),
            accepting: true,
            open: true,
            leases: 0,
            pool_id,
        }
    }

    /// The error that a pool cannot be made with, if it cannot.
    pub open spec fn create_error(config: BufferPoolConfig) -> Option<ErrorView> {
        if config.layout_error() is Some {
            config.layout_error()
        } else if config.tx_slot_count + config.rx_slot_count > usize::MAX {
            Some(ErrorView::InvalidConfiguration("slot count overflow"@))
        } else {
            None
        }
    }

    /// A fresh pool meets the invariant.
    pub proof fn lemma_fresh(config: BufferPoolConfig, pool_id: u64)
        requires
            Self::create_error(config) is None,
        ensures
            Self::fresh(config, pool_id).wf(),
    {
        let fresh = Self::fresh(config, pool_id);
        let tx = config.tx_slot_count as int;
        assert forall|i: int| 0 <= i < tx && #[trigger] fresh.states[i] == SlotState::Free implies
            fresh.free_tx.contains(i as usize) by {
            assert(fresh.free_tx[tx - 1 - i] == i as usize);
        }
        assert forall|i: int|
            tx <= i < fresh.states.len() && #[trigger] fresh.states[i] == SlotState::Free implies
            fresh.free_rx.contains(i as usize) by {
            assert(fresh.free_rx[i - tx] == i as usize);
        }
    }

    /// An allocation keeps the invariant, and gives out a free slot of the asked direction.
    pub proof fn lemma_allocate(self, kind: SlotKind)
        requires
            self.wf(),
            self.next_free(kind) is Some,
        ensures
            self.after_allocate(kind).wf(),
            self.next_free(kind)->0 < self.states.len(),
            self.kind(self.next_free(kind)->0 as int) == kind,
            self.states[self.next_free(kind)->0 as int] == SlotState::Free,
    {
        let index = self.next_free(kind)->0 as int;
        match kind {
            SlotKind::Tx => {
                lemma_take_last(self.free_tx, self.states, 0, self.tx());
                lemma_list_unaffected(
                    self.free_rx,
                    self.states,
                    self.tx(),
                    self.states.len() as int,
                    index,
                    SlotState::Allocated,
                );
            },
            SlotKind::Rx => {
                lemma_take_first(self.free_rx, self.states, self.tx(), self.states.len() as int);
                lemma_list_unaffected(
                    self.free_tx,
                    self.states,
                    0,
                    self.tx(),
                    index,
                    SlotState::Allocated,
                );
            },
        }
    }

    /// A release keeps the invariant.
    pub proof fn lemma_release(self, id: SlotId)
        requires
            self.wf(),
            self.release_error(id) is None,
        ensures
            self.after_release(id).wf(),
    {
        id.lemma_position();
        let index = id.position() as usize;
        let len = self.states.len() as int;
        if index < self.tx() {
            lemma_list_after_free(self.free_tx, self.states, 0, self.tx(), index);
            lemma_list_unaffected(
                self.free_rx,
                self.states,
                self.tx(),
                len,
                index as int,
                SlotState::Free,
            );
        } else {
            lemma_list_after_free(self.free_rx, self.states, self.tx(), len, index);
            lemma_list_unaffected(
                self.free_tx,
                self.states,
                0,
                self.tx(),
                index as int,
                SlotState::Free,
            );
        }
    }

    /// Moving a slot between two states other than `Free` keeps the invariant.
    pub proof fn lemma_with_state(self, id: SlotId, state: SlotState)
        requires
            self.wf(),
            self.has(id),
            self.state(id) != SlotState::Free,
            state != SlotState::Free,
        ensures
            self.with_state(id, state).wf(),
    {
        let index = id.position() as int;
        lemma_list_unaffected(self.free_tx, self.states, 0, self.tx(), index, state);
        lemma_list_unaffected(
            self.free_rx,
            self.states,
            self.tx(),
            self.states.len() as int,
            index,
            state,
        );
    }
}

/// The positions in `list` outside `low..high`, in order.
pub open spec fn without_range(list: Seq<usize>, low: int, high: int) -> Seq<usize>
    decreases list.len(),
{
    if list.len() == 0 {
        list
    } else if low <= list.last() < high {
        without_range(list.drop_last(), low, high)
    } else {
        without_range(list.drop_last(), low, high).push(list.last())
    }
}

pub proof fn lemma_without_range(list: Seq<usize>, low: int, high: int)
    requires
        list.no_duplicates(),
    ensures
        without_range(list, low, high).no_duplicates(),
        forall|x: usize| #[trigger]
            without_range(list, low, high).contains(x) <==> list.contains(x) && !(low <= x < high),
    decreases list.len(),
{
    let kept = without_range(list, low, high);
    if list.len() > 0 {
        let shorter = list.drop_last();
        let rest = without_range(shorter, low, high);
        lemma_without_range(shorter, low, high);
        assert forall|x: usize| list.contains(x) implies shorter.contains(x) || x == list.last() by {
            let k = choose|k: int| 0 <= k < list.len() && list[k] == x;
            if k < shorter.len() {
                assert(shorter[k] == x);
            }
        }
        assert forall|x: usize| shorter.contains(x) implies list.contains(x) by {
            let k = choose|k: int| 0 <= k < shorter.len() && shorter[k] == x;
            assert(list[k] == x);
        }
        assert(list.contains(list.last())) by {
            assert(list[list.len() - 1] == list.last());
        }
        assert(!shorter.contains(list.last()));
        if !(low <= list.last() < high) {
            assert(!rest.contains(list.last()));
            assert forall|x: usize| kept.contains(x) <==> rest.contains(x) || x == list.last() by {
                if rest.contains(x) {
                    let k = choose|k: int| 0 <= k < rest.len() && rest[k] == x;
                    assert(kept[k] == x);
                }
                if x == list.last() {
                    assert(kept[rest.len() as int] == x);
                }
                if kept.contains(x) {
                    let k = choose|k: int| 0 <= k < kept.len() && kept[k] == x;
                    if k < rest.len() {
                        assert(rest[k] == x);
                    }
                }
            }
        }
        assert forall|x: usize| #[trigger] kept.contains(x) <==> list.contains(x) && !(low <= x
            < high) by {
            assert(rest.contains(x) <==> shorter.contains(x) && !(low <= x < high));
        }
    }
}

/// The states with those from `low` up to `high` replaced by `state`.
pub open spec fn filled(states: Seq<SlotState>, low: int, high: int, state: SlotState) -> Seq<
    SlotState,
> {
    Seq::new(
        states.len(),
        |i: int|
            if low <= i < high {
                state
            } else {
                states[i]
            },
    )
}

impl PoolView {
    /// Whether the `n` TX slots from `start` on are all free.
    pub open spec fn free_run(self, start: int, n: int) -> bool {
        &&& 0 <= start
        &&& start + n <= self.tx()
        &&& forall|i: int| start <= i < start + n ==> #[trigger] self.states[i] == SlotState::Free
    }

    /// Whether `start` begins the leftmost run of `n` free TX slots.
    pub open spec fn leftmost_run(self, start: int, n: int) -> bool {
        &&& self.free_run(start, n)
        &&& forall|earlier: int| 0 <= earlier < start ==> !#[trigger] self.free_run(earlier, n)
    }

    /// The error for the length at `index` of a batch, if there is one.
    pub open spec fn batch_length_error(self, lengths: Seq<usize>, index: int) -> Option<ErrorView> {
        let length = lengths[index];
        if length == 0 || length > self.config.slot_size {
            Some(
                ErrorView::InvalidConfiguration(
                    "direct TX batch length "@ + text::decimal(length as nat) + " is outside 1..="@
                        + text::decimal(self.config.slot_size as nat) + " at index "@
                        + text::decimal(index as nat),
                ),
            )
        } else if index + 1 != lengths.len() && length != self.config.slot_size {
            Some(
                ErrorView::InvalidConfiguration("only the final direct TX batch slot may be short"@),
            )
        } else {
            None
        }
    }

    /// The error of the first of the `count` leading lengths that has one.
    pub open spec fn batch_lengths_error(self, lengths: Seq<usize>, count: nat) -> Option<ErrorView>
        decreases count,
    {
        if count == 0 {
            None
        } else {
            match self.batch_lengths_error(lengths, (count - 1) as nat) {
                Some(error) => Some(error),
                None => self.batch_length_error(lengths, count - 1),
            }
        }
    }

    /// An error of a leading length is the error of the whole batch.
    pub proof fn lemma_batch_lengths_error(self, lengths: Seq<usize>, few: nat, many: nat)
        requires
            few <= many,
            self.batch_lengths_error(lengths, few) is Some,
        ensures
            self.batch_lengths_error(lengths, many) == self.batch_lengths_error(lengths, few),
        decreases many,
    {
        if few < many {
            self.lemma_batch_lengths_error(lengths, few, (many - 1) as nat);
        }
    }

    /// Once a release fails, the later ones are not tried.
    pub proof fn lemma_releases_stop(self, ids: Seq<SlotId>, few: int)
        requires
            0 <= few <= ids.len(),
            self.releases_error(ids.take(few)) is Some,
        ensures
            self.releases_error(ids) == self.releases_error(ids.take(few)),
            self.after_releases(ids) == self.after_releases(ids.take(few)),
        decreases ids.len(),
    {
        if few < ids.len() {
            assert(ids.drop_last().take(few) =~= ids.take(few));
            self.lemma_releases_stop(ids.drop_last(), few);
        } else {
            assert(ids.take(few) =~= ids);
        }
    }

    /// The number of bytes that a batch fills: every slot but the last is full.
    pub open spec fn batch_bytes(self, lengths: Seq<usize>) -> nat {
        (self.config.slot_size * (lengths.len() - 1) + lengths.last()) as nat
    }

    /// The error that preparing a batch fails with before any slot is looked for.
    pub open spec fn batch_request_error(self, lengths: Seq<usize>) -> Option<ErrorView> {
        if self.config.alias_tx_slots || lengths.len() == 0 {
            Some(
                ErrorView::InvalidConfiguration(
                    "direct TX batch requires non-empty, non-aliased TX slots"@,
                ),
            )
        } else if lengths.len() > self.tx() {
            Some(ErrorView::InvalidConfiguration("direct TX batch exceeds TX slot count"@))
        } else if self.batch_lengths_error(lengths, lengths.len()) is Some {
            self.batch_lengths_error(lengths, lengths.len())
        } else if !self.open {
            Some(segment_closed())
        } else if self.batch_bytes(lengths) > u32::MAX {
            Some(ErrorView::InvalidConfiguration("TX batch length exceeds u32"@))
        } else {
            None
        }
    }

    /// The pool after a batch of `n` slots was taken from `start` on.
    pub open spec fn after_batch(self, start: int, n: int) -> Self {
        PoolView {
            states: filled(self.states, start, start + n, SlotState::Allocated),
            free_tx: without_range(self.free_tx, start, start + n),
            ..self
        }
    }

    /// The slots, offsets and lengths of a batch that starts at `start`.
    pub open spec fn batch_layouts(self, start: int, lengths: Seq<usize>) -> Seq<(SlotId, u64, u32)> {
        Seq::new(
            lengths.len(),
            |i: int|
                (
                    SlotId::at((start + i) as usize),
                    self.offset(start + i) as u64,
                    lengths[i] as u32,
                ),
        )
    }

    /// Taking a batch keeps the invariant.
    pub proof fn lemma_batch(self, start: int, n: int)
        requires
            self.wf(),
            self.free_run(start, n),
            n >= 0,
        ensures
            self.after_batch(start, n).wf(),
    {
        let after = self.after_batch(start, n);
        lemma_without_range(self.free_tx, start, start + n);
        assert forall|k: int| 0 <= k < after.free_tx.len() implies 0 <= #[trigger] after.free_tx[k]
            < self.tx() && after.states[after.free_tx[k] as int] == SlotState::Free by {
            let x = after.free_tx[k];
            assert(after.free_tx.contains(x));
            let j = choose|j: int| 0 <= j < self.free_tx.len() && self.free_tx[j] == x;
            assert(self.free_tx[j] == x);
        }
        assert forall|i: int|
            0 <= i < self.tx() && #[trigger] after.states[i] == SlotState::Free implies after.free_tx.contains(
            i as usize,
        ) by {
            assert(self.states[i] == SlotState::Free);
        }
        assert forall|i: int|
            self.tx() <= i < after.states.len() && #[trigger] after.states[i]
                == SlotState::Free implies after.free_rx.contains(i as usize) by {
            assert(self.states[i] == SlotState::Free);
        }
    }

    /// Every slot lies inside the segment, and no two slots overlap unless both are TX slots of an
    /// aliased pool.
    pub proof fn slots_lie_apart(self, i: int, j: int)
        requires
            self.wf(),
            0 <= i < self.states.len(),
            0 <= j < self.states.len(),
            i != j,
        ensures
            0 <= self.offset(i),
            self.offset(i) + self.config.slot_size <= self.config.total(),
            (self.config.alias_tx_slots && i < self.tx() && j < self.tx()) || self.offset(i)
                + self.config.slot_size <= self.offset(j) || self.offset(j) + self.config.slot_size
                <= self.offset(i),
    {
        let size = self.config.slot_size as int;
        let slots = self.config.physical_tx_slots() + self.config.rx_slot_count as int;
        let pi = self.physical(i);
        let pj = self.physical(j);
        assert(0 <= pi < slots && 0 <= pj < slots);
        assert(0 <= size * pi && size * pi + size <= size * slots) by (nonlinear_arith)
            requires
                0 <= pi < slots,
                size >= 0,
        ;
        if pi < pj {
            assert(size * pi + size <= size * pj) by (nonlinear_arith)
                requires
                    pi < pj,
                    size >= 0,
            ;
        } else if pj < pi {
            assert(size * pj + size <= size * pi) by (nonlinear_arith)
                requires
                    pj < pi,
                    size >= 0,
            ;
        }
    }

    /// Whether some TX slot is in use.
    pub open spec fn tx_busy(self) -> bool {
        exists|i: int| 0 <= i < self.tx() && #[trigger] self.states[i] != SlotState::Free
    }

    /// The error that writing into a TX slot fails with, if it fails. Where the TX slots share one
    /// range, no slot is written by itself.
    pub open spec fn write_error(self, id: SlotId, length: nat) -> Option<ErrorView> {
        if self.config.alias_tx_slots {
            Some(
                ErrorView::Protocol(
                    "aliased TX memory cannot be rewritten while another TX WR is outstanding"@,
                ),
            )
        } else if !self.has(id) {
            Some(slot_outside())
        } else if self.kind(id.position() as int) != SlotKind::Tx || self.state(id)
            != SlotState::Allocated {
            Some(ErrorView::InvalidConfiguration("TX write requires an allocated TX slot"@))
        } else if length == 0 || length > self.config.slot_size {
            Some(
                ErrorView::InvalidConfiguration(
                    "TX message length "@ + text::decimal(length) + " is outside 1..="@
                        + text::decimal(self.config.slot_size as nat) + ""@,
                ),
            )
        } else if !self.open {
            Some(segment_closed())
        } else if length > u32::MAX {
            Some(ErrorView::InvalidConfiguration("TX length exceeds u32"@))
        } else {
            None
        }
    }

    /// The error that filling the shared TX range fails with, if it fails.
    pub open spec fn aliased_write_error(self, length: nat) -> Option<ErrorView> {
        if !self.config.alias_tx_slots || length == 0 || length > self.config.slot_size {
            Some(
                ErrorView::InvalidConfiguration(
                    "aliased TX preparation requires a non-empty payload within slot_size"@,
                ),
            )
        } else if self.tx_busy() {
            Some(
                ErrorView::Protocol(
                    "aliased TX payload can only be prepared with no outstanding TX WR"@,
                ),
            )
        } else if !self.open {
            Some(segment_closed())
        } else {
            None
        }
    }

    /// The error that sending the shared TX range from a slot fails with, if it fails.
    pub open spec fn aliased_layout_error(self, id: SlotId, length: nat) -> Option<ErrorView> {
        if !self.has(id) {
            Some(slot_outside())
        } else if !self.config.alias_tx_slots || self.kind(id.position() as int) != SlotKind::Tx
            || self.state(id) != SlotState::Allocated {
            Some(
                ErrorView::InvalidConfiguration("prepared TX requires an allocated aliased TX slot"@),
            )
        } else if length == 0 || length > self.config.slot_size {
            Some(
                ErrorView::InvalidConfiguration("prepared TX length is outside the slot capacity"@),
            )
        } else if length > u32::MAX {
            Some(ErrorView::InvalidConfiguration("TX length exceeds u32"@))
        } else {
            None
        }
    }

    /// The error that posting a receive on a slot fails with, if it fails.
    pub open spec fn recv_layout_error(self, id: SlotId) -> Option<ErrorView> {
        if !self.has(id) {
            Some(slot_outside())
        } else if self.kind(id.position() as int) != SlotKind::Rx || self.state(id)
            != SlotState::Allocated {
            Some(ErrorView::InvalidConfiguration("RECV post requires an allocated RX slot"@))
        } else if self.config.slot_size > u32::MAX {
            Some(ErrorView::InvalidConfiguration("slot size exceeds u32"@))
        } else {
            None
        }
    }

    /// The error that marking a slot as posted fails with, if it fails.
    pub open spec fn mark_posted_error(self, id: SlotId, kind: SlotKind) -> Option<ErrorView> {
        if !self.has(id) {
            Some(completion_outside())
        } else if self.kind(id.position() as int) != kind {
            Some(ErrorView::Protocol("WR operation does not match slot kind"@))
        } else {
            self.transition_error(id, SlotState::Allocated)
        }
    }

    /// The error that a receive completion is refused with, if it is refused.
    pub open spec fn recv_error(self, id: SlotId, length: nat) -> Option<ErrorView> {
        if !self.has(id) {
            Some(slot_outside())
        } else if self.kind(id.position() as int) != SlotKind::Rx || self.state(id)
            != SlotState::PostedRecv {
            Some(ErrorView::Protocol("RECV CQE does not match a posted RX slot"@))
        } else if length == 0 || length > self.config.slot_size {
            Some(
                ErrorView::Protocol(
                    "RECV completion length "@ + text::decimal(length) + " is outside 1..="@
                        + text::decimal(self.config.slot_size as nat) + ""@,
                ),
            )
        } else {
            None
        }
    }
}

/// One message of a leased receive window.
#[derive(Clone, Copy, Debug, Eq, PartialEq, Structural)]
pub struct RegisteredRxChunk {
    pub sequence: Option<u64>,
    pub length: usize,
}

/// A run of bytes in the segment.
#[derive(Clone, Copy, Debug, Eq, PartialEq, Structural)]
pub struct RegisteredRxSpan {
    pub offset: usize,
    pub length: usize,
}

/// A leased receive window.
#[verifier::ext_equal]
pub struct LeaseView {
    /// The runs of bytes, in wire order.
    pub spans: Seq<RegisteredRxSpan>,
    /// The number of bytes.
    pub length: nat,
    /// The messages, in wire order.
    pub chunks: Seq<RegisteredRxChunk>,
    /// The slots that are leased out.
    pub slots: Seq<SlotId>,
    /// The pool that the slots belong to.
    pub pool_id: u64,
}

impl LeaseView {
    /// No slot is leased twice.
    pub open spec fn wf(self) -> bool {
        self.slots.no_duplicates()
    }
}

/// The spans with one more run of bytes, which joins the last span where it continues it.
pub open spec fn with_run(spans: Seq<RegisteredRxSpan>, offset: int, length: int) -> Seq<
    RegisteredRxSpan,
> {
    if spans.len() > 0 && spans.last().offset + spans.last().length == offset {
        spans.drop_last().push(
            RegisteredRxSpan {
                offset: spans.last().offset,
                length: (spans.last().length + length) as usize,
            },
        )
    } else {
        spans.push(RegisteredRxSpan { offset: offset as usize, length: length as usize })
    }
}

/// The bytes of the segment that the spans cover, in order.
pub open spec fn covered(memory: Seq<u8>, spans: Seq<RegisteredRxSpan>) -> Seq<u8>
    decreases spans.len(),
{
    if spans.len() == 0 {
        Seq::empty()
    } else {
        covered(memory, spans.drop_last()) + memory.subrange(
            spans.last().offset as int,
            spans.last().offset + spans.last().length,
        )
    }
}

/// The number of bytes in the spans.
pub open spec fn spans_total(spans: Seq<RegisteredRxSpan>) -> int
    decreases spans.len(),
{
    if spans.len() == 0 {
        0
    } else {
        spans_total(spans.drop_last()) + spans.last().length
    }
}

impl PoolView {
    /// The pool after moving the slots one by one from a state to another, up to the first that is
    /// not in it.
    pub open spec fn after_moves(self, ids: Seq<SlotId>, from: SlotState, to: SlotState) -> Self
        decreases ids.len(),
    {
        if ids.len() == 0 {
            self
        } else {
            let before = self.after_moves(ids.drop_last(), from, to);
            if self.moves_error(ids.drop_last(), from, to) is Some || before.transition_error(
                ids.last(),
                from,
            ) is Some {
                before
            } else {
                before.with_state(ids.last(), to)
            }
        }
    }

    /// The error of the first slot that is not in the state.
    pub open spec fn moves_error(self, ids: Seq<SlotId>, from: SlotState, to: SlotState) -> Option<
        ErrorView,
    >
        decreases ids.len(),
    {
        if ids.len() == 0 {
            None
        } else if self.moves_error(ids.drop_last(), from, to) is Some {
            self.moves_error(ids.drop_last(), from, to)
        } else {
            self.after_moves(ids.drop_last(), from, to).transition_error(ids.last(), from)
        }
    }

    /// The error for the completion at `index` of a window, if there is one.
    pub open spec fn lease_item_error(
        self,
        completions: Seq<(SlotId, Option<u64>, u32)>,
        index: int,
    ) -> Option<ErrorView> {
        let (slot, _, length) = completions[index];
        if !self.has(slot) {
            Some(slot_outside())
        } else if self.kind(slot.position() as int) != SlotKind::Rx || self.state(slot)
            != SlotState::RecvCompleted {
            Some(ErrorView::Protocol("RX lease requires completed receive slots"@))
        } else if length == 0 || length > self.config.slot_size {
            Some(ErrorView::Protocol("invalid RX lease chunk length"@))
        } else if index + 1 != completions.len() && length != self.config.slot_size {
            Some(ErrorView::Protocol("only the final RX lease chunk may be short"@))
        } else if window_bytes(completions.take(index + 1)) > usize::MAX {
            Some(ErrorView::Protocol("RX lease length overflow"@))
        } else {
            None
        }
    }

    /// The error of the first of the `count` leading completions that has one.
    pub open spec fn lease_items_error(
        self,
        completions: Seq<(SlotId, Option<u64>, u32)>,
        count: nat,
    ) -> Option<ErrorView>
        decreases count,
    {
        if count == 0 {
            None
        } else {
            match self.lease_items_error(completions, (count - 1) as nat) {
                Some(error) => Some(error),
                None => self.lease_item_error(completions, count - 1),
            }
        }
    }

    /// An error of a leading completion is the error of the whole window.
    pub proof fn lemma_lease_items_error(
        self,
        completions: Seq<(SlotId, Option<u64>, u32)>,
        few: nat,
        many: nat,
    )
        requires
            few <= many,
            self.lease_items_error(completions, few) is Some,
        ensures
            self.lease_items_error(completions, many) == self.lease_items_error(completions, few),
        decreases many,
    {
        if few < many {
            self.lemma_lease_items_error(completions, few, (many - 1) as nat);
        }
    }

    /// Once a move fails, the later ones are not tried.
    pub proof fn lemma_moves_stop(self, ids: Seq<SlotId>, from: SlotState, to: SlotState, few: int)
        requires
            0 <= few <= ids.len(),
            self.moves_error(ids.take(few), from, to) is Some,
        ensures
            self.moves_error(ids, from, to) == self.moves_error(ids.take(few), from, to),
            self.after_moves(ids, from, to) == self.after_moves(ids.take(few), from, to),
        decreases ids.len(),
    {
        if few < ids.len() {
            assert(ids.drop_last().take(few) =~= ids.take(few));
            self.lemma_moves_stop(ids.drop_last(), from, to, few);
        } else {
            assert(ids.take(few) =~= ids);
        }
    }

    /// Slots that can all be moved out of a state that the move does not lead back to are distinct.
    pub proof fn lemma_moved_are_distinct(self, ids: Seq<SlotId>, from: SlotState, to: SlotState)
        requires
            from != to,
            self.states.len() <= usize::MAX,
            self.moves_error(ids, from, to) is None,
        ensures
            ids.no_duplicates(),
            self.after_moves(ids, from, to).states.len() == self.states.len(),
            forall|k: int|
                0 <= k < ids.len() ==> self.has(#[trigger] ids[k]) && self.after_moves(
                    ids,
                    from,
                    to,
                ).state(ids[k]) == to,
        decreases ids.len(),
    {
        if ids.len() > 0 {
            let shorter = ids.drop_last();
            self.lemma_moved_are_distinct(shorter, from, to);
            let before = self.after_moves(shorter, from, to);
            assert forall|k: int| 0 <= k < shorter.len() implies ids[k] != ids.last() by {
                assert(before.state(shorter[k]) == to);
            }
            let after = self.after_moves(ids, from, to);
            assert forall|k: int| 0 <= k < ids.len() implies self.has(#[trigger] ids[k])
                && after.state(ids[k]) == to by {
                if k < shorter.len() {
                    assert(before.state(shorter[k]) == to);
                }
            }
            assert forall|i: int, j: int|
                0 <= i < ids.len() && 0 <= j < ids.len() && i != j implies ids[i] != ids[j] by {
                if i < shorter.len() && j < shorter.len() {
                    assert(shorter[i] != shorter[j]);
                }
            }
        }
    }

    /// Moving slots changes nothing but states.
    pub proof fn lemma_moves_keep(self, ids: Seq<SlotId>, from: SlotState, to: SlotState)
        ensures
            self.after_moves(ids, from, to) == (PoolView {
                states: self.after_moves(ids, from, to).states,
                ..self
            }),
        decreases ids.len(),
    {
        if ids.len() > 0 {
            self.lemma_moves_keep(ids.drop_last(), from, to);
        }
    }

    /// Giving slots back changes nothing but their states and the free lists.
    pub proof fn lemma_recycled_keep(self, slots: Seq<SlotId>)
        ensures
            self.after_recycled_slots(slots) == (PoolView {
                states: self.after_recycled_slots(slots).states,
                free_tx: self.after_recycled_slots(slots).free_tx,
                free_rx: self.after_recycled_slots(slots).free_rx,
                ..self
            }),
        decreases slots.len(),
    {
        if slots.len() > 0 {
            self.lemma_recycled_keep(slots.drop_last());
        }
    }

    /// The first slot that is not leased decides the error.
    pub proof fn lemma_leased_stop(self, slots: Seq<SlotId>, few: int)
        requires
            0 <= few <= slots.len(),
            self.leased_error(slots.take(few)) is Some,
        ensures
            self.leased_error(slots) == self.leased_error(slots.take(few)),
        decreases slots.len(),
    {
        if few < slots.len() {
            assert(slots.drop_last().take(few) =~= slots.take(few));
            self.lemma_leased_stop(slots.drop_last(), few);
        } else {
            assert(slots.take(few) =~= slots);
        }
    }

    /// Where all slots are leased receive slots, so are the leading ones.
    pub proof fn lemma_leased_prefix(self, slots: Seq<SlotId>, few: int)
        requires
            0 <= few <= slots.len(),
            self.leased_error(slots) is None,
        ensures
            self.leased_error(slots.take(few)) is None,
        decreases slots.len(),
    {
        if self.leased_error(slots.take(few)) is Some {
            self.lemma_leased_stop(slots, few);
        }
    }

    /// What giving back the slots of a valid lease does to the invariant and to the other slots.
    pub proof fn lemma_recycled_slots(self, slots: Seq<SlotId>)
        requires
            self.wf(),
            slots.no_duplicates(),
            self.leased_error(slots) is None,
        ensures
            self.after_recycled_slots(slots).wf(),
            self.after_recycled_slots(slots).config == self.config,
            self.after_recycled_slots(slots).states.len() == self.states.len(),
            forall|id: SlotId|
                self.has(id) && !slots.contains(id) ==> #[trigger] self.after_recycled_slots(
                    slots,
                ).state(id) == self.state(id),
        decreases slots.len(),
    {
        if slots.len() > 0 {
            let shorter = slots.drop_last();
            let last = slots.last();
            assert(slots[slots.len() - 1] == last);
            self.lemma_recycled_slots(shorter);
            let before = self.after_recycled_slots(shorter);
            assert(!shorter.contains(last));
            assert(before.state(last) == SlotState::Leased);
            let returned = before.with_state(last, SlotState::RecvCompleted);
            before.lemma_with_state(last, SlotState::RecvCompleted);
            returned.lemma_release(last);
            assert(returned.after_release(last) =~= before.after_release(last));
            assert forall|id: SlotId|
                self.has(id) && !slots.contains(id) implies #[trigger] self.after_recycled_slots(
                slots,
            ).state(id) == self.state(id) by {
                assert(!shorter.contains(id)) by {
                    if shorter.contains(id) {
                        let k = choose|k: int| 0 <= k < shorter.len() && shorter[k] == id;
                        assert(slots[k] == id);
                    }
                }
                assert(before.state(id) == self.state(id));
                id.lemma_position();
                last.lemma_position();
                assert(id != last);
            }
        }
    }

    /// The error that leasing a window is refused with before any slot changes.
    pub open spec fn lease_request_error(self, completions: Seq<(SlotId, Option<u64>, u32)>) -> Option<
        ErrorView,
    > {
        if completions.len() == 0 {
            Some(ErrorView::InvalidConfiguration("RX lease requires at least one completion"@))
        } else if !self.open {
            Some(segment_closed())
        } else {
            self.lease_items_error(completions, completions.len())
        }
    }

    /// The spans of a window.
    pub open spec fn window_spans(self, completions: Seq<(SlotId, Option<u64>, u32)>) -> Seq<
        RegisteredRxSpan,
    >
        decreases completions.len(),
    {
        if completions.len() == 0 {
            Seq::empty()
        } else {
            let (slot, _, length) = completions.last();
            with_run(
                self.window_spans(completions.drop_last()),
                self.offset(slot.position() as int),
                length as int,
            )
        }
    }

    /// The window that the completions make up.
    pub open spec fn window(self, completions: Seq<(SlotId, Option<u64>, u32)>) -> LeaseView {
        LeaseView {
            spans: self.window_spans(completions),
            length: window_bytes(completions),
            chunks: completions.map_values(
                |completion: (SlotId, Option<u64>, u32)|
                    RegisteredRxChunk { sequence: completion.1, length: completion.2 as usize },
            ),
            slots: window_slots(completions),
            pool_id: self.pool_id,
        }
    }

    /// The error that giving a window back is refused with, if it is refused.
    pub open spec fn recycle_error(self, lease: LeaseView) -> Option<ErrorView> {
        if lease.pool_id != self.pool_id {
            Some(ErrorView::Protocol("RX lease belongs to another pool"@))
        } else {
            self.leased_error(lease.slots)
        }
    }

    /// The error of the first slot that is not a leased receive slot.
    pub open spec fn leased_error(self, slots: Seq<SlotId>) -> Option<ErrorView>
        decreases slots.len(),
    {
        if slots.len() == 0 {
            None
        } else if self.leased_error(slots.drop_last()) is Some {
            self.leased_error(slots.drop_last())
        } else if !self.has(slots.last()) {
            Some(slot_outside())
        } else if self.kind(slots.last().position() as int) != SlotKind::Rx || self.state(
            slots.last(),
        ) != SlotState::Leased {
            Some(ErrorView::Protocol("RX lease slot state mismatch"@))
        } else {
            None
        }
    }

    /// The pool after giving back each slot, in order.
    pub open spec fn after_recycled_slots(self, slots: Seq<SlotId>) -> Self
        decreases slots.len(),
    {
        if slots.len() == 0 {
            self
        } else {
            self.after_recycled_slots(slots.drop_last()).after_release(slots.last())
        }
    }

    /// The pool after giving a window back.
    pub open spec fn after_recycle(self, lease: LeaseView) -> Self {
        PoolView {
            leases: if self.leases > 0 {
                (self.leases - 1) as nat
            } else {
                0
            },
            ..self.after_recycled_slots(lease.slots)
        }
    }

    /// Leasing distinct completed slots always succeeds and changes only their states.
    pub proof fn lemma_distinct_moves(self, ids: Seq<SlotId>, from: SlotState, to: SlotState)
        requires
            ids.no_duplicates(),
            self.states.len() <= usize::MAX,
            forall|k: int|
                0 <= k < ids.len() ==> self.has(#[trigger] ids[k]) && self.state(ids[k]) == from,
        ensures
            self.moves_error(ids, from, to) is None,
            self.after_moves(ids, from, to).states.len() == self.states.len(),
            self.after_moves(ids, from, to) == (PoolView {
                states: self.after_moves(ids, from, to).states,
                ..self
            }),
            forall|i: int|
                0 <= i < self.states.len() ==> #[trigger] self.after_moves(ids, from, to).states[i]
                    == if ids.contains(SlotId::at(i as usize)) {
                    to
                } else {
                    self.states[i]
                },
        decreases ids.len(),
    {
        if ids.len() > 0 {
            let shorter = ids.drop_last();
            let last = ids.last();
            last.lemma_position();
            self.lemma_distinct_moves(shorter, from, to);
            let before = self.after_moves(shorter, from, to);
            let after = self.after_moves(ids, from, to);
            assert(ids[ids.len() - 1] == last);
            assert(!shorter.contains(last));
            assert(self.has(last) && self.state(last) == from);
            assert(before.states[last.position() as int] == from);
            assert forall|i: int| 0 <= i < self.states.len() implies #[trigger] after.states[i]
                == if ids.contains(SlotId::at(i as usize)) {
                to
            } else {
                self.states[i]
            } by {
                let id = SlotId::at(i as usize);
                assert(id.position() == i);
                assert(before.states[i] == if shorter.contains(id) {
                    to
                } else {
                    self.states[i]
                });
                if i == last.position() {
                    assert(ids.contains(id));
                } else if shorter.contains(id) {
                    let k = choose|k: int| 0 <= k < shorter.len() && shorter[k] == id;
                    assert(ids[k] == id);
                } else if ids.contains(id) {
                    let k = choose|k: int| 0 <= k < ids.len() && ids[k] == id;
                    assert(k == ids.len() - 1) by {
                        if k < shorter.len() {
                            assert(shorter[k] == id);
                        }
                    }
                }
            }
        }
    }
}

/// The number of bytes that the completions received.
pub open spec fn window_bytes(completions: Seq<(SlotId, Option<u64>, u32)>) -> nat
    decreases completions.len(),
{
    if completions.len() == 0 {
        0
    } else {
        window_bytes(completions.drop_last()) + completions.last().2 as nat
    }
}

/// The slots of the completions.
pub open spec fn window_slots(completions: Seq<(SlotId, Option<u64>, u32)>) -> Seq<SlotId> {
    completions.map_values(|completion: (SlotId, Option<u64>, u32)| completion.0)
}

/// The bytes that the completions received, in wire order.
pub open spec fn received(
    pool: PoolView,
    memory: Seq<u8>,
    completions: Seq<(SlotId, Option<u64>, u32)>,
) -> Seq<u8>
    decreases completions.len(),
{
    if completions.len() == 0 {
        Seq::empty()
    } else {
        let (slot, _, length) = completions.last();
        let offset = pool.offset(slot.position() as int);
        received(pool, memory, completions.drop_last()) + memory.subrange(offset, offset + length)
    }
}

/// The spans of a window cover the bytes that its completions received, in wire order, however the
/// slots lie in the segment.
pub proof fn window_spans_cover_what_was_received(
    pool: PoolView,
    memory: Seq<u8>,
    completions: Seq<(SlotId, Option<u64>, u32)>,
)
    requires
        pool.wf(),
        memory.len() == pool.config.total(),
        pool.lease_items_error(completions, completions.len()) is None,
    ensures
        covered(memory, pool.window_spans(completions)) == received(pool, memory, completions),
        spans_total(pool.window_spans(completions)) == window_bytes(completions),
{
    pool.lemma_window_spans(memory, completions, completions.len());
    assert(completions.take(completions.len() as int) =~= completions);
}

impl PoolView {
    /// What [`window_spans_cover_what_was_received`] says, of the first `count` completions.
    pub proof fn lemma_window_spans(
        self,
        memory: Seq<u8>,
        completions: Seq<(SlotId, Option<u64>, u32)>,
        count: nat,
    )
        requires
            self.wf(),
            memory.len() == self.config.total(),
            count <= completions.len(),
            self.lease_items_error(completions, count) is None,
        ensures
            covered(memory, self.window_spans(completions.take(count as int))) == received(
                self,
                memory,
                completions.take(count as int),
            ),
            spans_total(self.window_spans(completions.take(count as int))) == window_bytes(
                completions.take(count as int),
            ),
            count > 0 ==> {
                let last = self.window_spans(completions.take(count as int)).last();
                let slot = completions[count - 1].0;
                &&& self.window_spans(completions.take(count as int)).len() > 0
                &&& last.offset + last.length == self.offset(slot.position() as int) + completions[count
                    - 1].2
                &&& last.offset + last.length <= self.config.total()
            },
        decreases count,
    {
        let taken = completions.take(count as int);
        if count > 0 {
            let (slot, _, length) = completions[count - 1];
            let earlier = completions.take(count - 1);
            assert(taken.drop_last() =~= earlier);
            self.lemma_window_spans(memory, completions, (count - 1) as nat);
            let index = slot.position() as int;
            let offset = self.offset(index);
            self.slots_lie_apart(index, if index == 0 {
                1
            } else {
                0
            });
            let before = self.window_spans(earlier);
            let after = self.window_spans(taken);
            if before.len() > 0 && before.last().offset + before.last().length == offset {
                let joined = after.last();
                assert(after.drop_last() =~= before.drop_last());
                assert(memory.subrange(joined.offset as int, joined.offset + joined.length)
                    =~= memory.subrange(before.last().offset as int, offset) + memory.subrange(
                    offset,
                    offset + length,
                ));
                assert(covered(memory, after) =~= covered(memory, before) + memory.subrange(
                    offset,
                    offset + length,
                ));
            } else {
                assert(after.drop_last() =~= before);
            }
        }
    }
}

} // verus!
