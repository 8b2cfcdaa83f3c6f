//! Verification of received windows: independent windows are hashed by several workers, and their
//! digests are combined, and their leases given back, in wire order.

use std::collections::BTreeMap;

use vstd::prelude::*;

use crate::benchmark::{FileCompletionPolicy, IntegrityResult};
use crate::buffer;
use crate::buffer::{LeaseView, RegisteredRxChunk, RegisteredRxSpan, RegisteredRxWindowLease};
use crate::digest;
use crate::digest::Crc32Hasher;
use crate::error::{invalid, protocol, Error, ErrorView, Result};

verus! {

/// The number of bytes in the messages of a window, or what is wrong with them.
pub open spec fn scanned(chunks: Seq<RegisteredRxChunk>) -> core::result::Result<nat, ErrorView>
    decreases chunks.len(),
{
    if chunks.len() == 0 {
        Ok(0)
    } else {
        match scanned(chunks.drop_last()) {
            Err(error) => Err(error),
            Ok(total) => {
                let chunk = chunks.last();
                match chunk.sequence {
                    None => Err(ErrorView::Protocol("registered RX window lacks a sequence"@)),
                    Some(sequence) => if chunks.len() > 1 && Some((sequence - 1) as u64)
                        != chunks[chunks.len() - 2].sequence || chunks.len() > 1 && sequence == 0 {
                        Err(
                            ErrorView::Protocol(
                                "registered RX window sequence is not contiguous"@,
                            ),
                        )
                    } else if total + chunk.length > usize::MAX {
                        Err(
                            ErrorView::InvalidConfiguration(
                                "registered RX window length overflow"@,
                            ),
                        )
                    } else {
                        Ok(total + chunk.length as nat)
                    },
                }
            },
        }
    }
}

/// Why a window is refused, if it is refused.
pub open spec fn layout_error(window: LeaseView) -> Option<ErrorView> {
    match scanned(window.chunks) {
        Err(error) => Some(error),
        Ok(total) => if total != window.length {
            Some(
                ErrorView::Protocol(
                    "registered RX window chunk lengths do not match its byte range"@,
                ),
            )
        } else {
            None
        },
    }
}

proof fn lemma_scan_stops(chunks: Seq<RegisteredRxChunk>, few: int)
    requires
        0 <= few <= chunks.len(),
        scanned(chunks.take(few)) is Err,
    ensures
        scanned(chunks) == scanned(chunks.take(few)),
    decreases chunks.len() - few,
{
    if few < chunks.len() {
        assert(chunks.take(few + 1).drop_last() =~= chunks.take(few));
        lemma_scan_stops(chunks, few + 1);
    } else {
        assert(chunks.take(few) =~= chunks);
    }
}

/// Whether the messages of a window follow each other and fill it.
pub fn validate_registered_window_layout(window: &RegisteredRxWindowLease) -> (valid: Result<()>)
    ensures
        match valid {
            Ok(()) => layout_error(window@) is None,
            Err(error) => layout_error(window@) == Some(error@),
        },
{
    let chunks = window.chunks();
    let mut total: usize = 0;
    let mut index: usize = 0;
    while index < chunks.len()
        invariant
            chunks@ == window@.chunks,
            index <= chunks@.len(),
            scanned(chunks@.take(index as int)) == Ok::<nat, ErrorView>(total as nat),
        decreases chunks@.len() - index,
    {
        proof {
            let longer = chunks@.take(index + 1);
            assert(longer.drop_last() =~= chunks@.take(index as int));
            assert(longer.last() == chunks@[index as int]);
            if index > 0 {
                assert(longer[longer.len() - 2] == chunks@[index - 1]);
            }
            if scanned(longer) is Err {
                lemma_scan_stops(chunks@, index + 1);
            }
        }
        let chunk = chunks[index];
        let sequence: u64 = match chunk.sequence {
            Some(sequence) => sequence,
            None => {
                return Err(protocol("registered RX window lacks a sequence"));
            },
        };
        if index > 0 {
            let follows = match chunks[index - 1].sequence {
                Some(previous) => previous < u64::MAX && sequence == previous + 1,
                None => false,
            };
            if !follows {
                return Err(protocol("registered RX window sequence is not contiguous"));
            }
        }
        total =
        match total.checked_add(chunk.length) {
            Some(total) => total,
            None => {
                return Err(invalid("registered RX window length overflow"));
            },
        };
        index += 1;
    }
    assert(chunks@.take(chunks@.len() as int) =~= chunks@);
    if total != window.len() {
        return Err(protocol("registered RX window chunk lengths do not match its byte range"));
    }
    Ok(())
}

/// Where a verified payload goes, and what it should be.
#[derive(Clone, Copy, Debug, Eq, PartialEq, Structural)]
pub struct WindowSink {
    /// Whether the bytes are written to a file.
    pub writes_file: bool,
    pub expected_bytes: u64,
    pub expected_crc32: u32,
    pub completion_policy: FileCompletionPolicy,
}

impl WindowSink {
    pub fn memory(expected_bytes: u64, expected_crc32: u32) -> (sink: Self)
        ensures
            sink == (WindowSink {
                writes_file: false,
                expected_bytes,
                expected_crc32,
                completion_policy: FileCompletionPolicy::Buffered,
            }),
    {
        WindowSink {
            writes_file: false,
            expected_bytes,
            expected_crc32,
            completion_policy: FileCompletionPolicy::Buffered,
        }
    }

    /// A sink whose bytes go to a file. `created` is the outcome of creating and emptying it.
    pub fn file(
        expected_bytes: u64,
        expected_crc32: u32,
        completion_policy: FileCompletionPolicy,
        created: core::result::Result<(), String>,
    ) -> (sink: Result<Self>)
        ensures
            match created {
                Ok(()) => sink == Ok::<Self, Error>(
                    WindowSink {
                        writes_file: true,
                        expected_bytes,
                        expected_crc32,
                        completion_policy,
                    },
                ),
                Err(message) => {
                    &&& sink matches Err(error)
                    &&& error@ == (ErrorView::Io {
                        operation: "create direct URMA benchmark sink"@,
                        message: message@,
                    })
                },
            },
    {
        match created {
            Ok(()) => Ok(
                WindowSink { writes_file: true, expected_bytes, expected_crc32, completion_policy },
            ),
            Err(message) => Err(
                Error::Io { operation: "create direct URMA benchmark sink", message },
            ),
        }
    }

    /// Whether the file has to be synced before the sink is finished.
    pub open spec fn syncs(self) -> bool {
        self.completion_policy == FileCompletionPolicy::Durable && self.writes_file
    }

    /// Whether the file has to be synced before the sink is finished.
    pub fn needs_sync(&self) -> (needed: bool)
        ensures
            needed == self.syncs(),
    {
        self.completion_policy == FileCompletionPolicy::Durable && self.writes_file
    }

    /// Judges what arrived. `synced` is the outcome of the sync, where one was needed.
    pub fn finish(
        &self,
        actual_bytes: u64,
        actual_crc32: u32,
        synced: core::result::Result<(), String>,
    ) -> (finished: Result<IntegrityResult>)
        ensures
            match finished {
                Ok(integrity) => {
                    &&& !self.syncs() || synced is Ok
                    &&& integrity == IntegrityResult::judged(
                        self.expected_bytes,
                        actual_bytes,
                        self.expected_crc32,
                        actual_crc32,
                    )
                },
                Err(error) => {
                    &&& self.syncs()
                    &&& synced matches Err(message)
                    &&& error@ == (ErrorView::Io {
                        operation: "sync direct URMA benchmark sink"@,
                        message: message@,
                    })
                },
            },
    {
        if self.needs_sync() {
            match synced {
                Ok(()) => {},
                Err(message) => {
                    return Err(Error::Io { operation: "sync direct URMA benchmark sink", message });
                },
            }
        }
        Ok(
            IntegrityResult::new(
                self.expected_bytes,
                actual_bytes,
                self.expected_crc32,
                actual_crc32,
            ),
        )
    }
}

/// Whether every span lies in the memory.
pub open spec fn inside(spans: Seq<RegisteredRxSpan>, memory: nat) -> bool {
    forall|i: int|
        0 <= i < spans.len() ==> (#[trigger] spans[i]).offset + spans[i].length <= memory
}

/// Hashes the bytes of a window in wire order.
pub fn hash_window(memory: &[u8], window: &RegisteredRxWindowLease) -> (digest: Crc32Hasher)
    requires
        inside(window@.spans, memory@.len()),
        buffer::model::spans_total(window@.spans) <= u64::MAX,
    ensures
        digest@ == buffer::model::covered(memory@, window@.spans),
{
    let spans = window.parts();
    let size: usize = memory.len();
    let mut digest = Crc32Hasher::new();
    let mut index: usize = 0;
    while index < spans.len()
        invariant
            spans@ == window@.spans,
            size == memory@.len(),
            inside(spans@, memory@.len()),
            buffer::model::spans_total(spans@) <= u64::MAX,
            index <= spans@.len(),
            digest@ == buffer::model::covered(memory@, spans@.take(index as int)),
            digest@.len() == buffer::model::spans_total(spans@.take(index as int)),
        decreases spans@.len() - index,
    {
        let span = spans[index];
        proof {
            let longer = spans@.take(index + 1);
            assert(longer.drop_last() =~= spans@.take(index as int));
            assert(longer.last() == spans@[index as int]);
            lemma_spans_total(spans@, index + 1);
        }
        digest.update(
            vstd::slice::slice_subrange(memory, span.offset, span.offset + span.length),
        );
        index += 1;
    }
    assert(spans@.take(spans@.len() as int) =~= spans@);
    digest
}

proof fn lemma_spans_total(spans: Seq<RegisteredRxSpan>, few: int)
    requires
        0 <= few <= spans.len(),
    ensures
        0 <= buffer::model::spans_total(spans.take(few)) <= buffer::model::spans_total(spans),
    decreases spans.len() - few,
{
    if few < spans.len() {
        lemma_spans_total(spans, few + 1);
        assert(spans.take(few + 1).drop_last() =~= spans.take(few));
        lemma_spans_total_positive(spans.take(few));
    } else {
        assert(spans.take(few) =~= spans);
        lemma_spans_total_positive(spans);
    }
}

proof fn lemma_spans_total_positive(spans: Seq<RegisteredRxSpan>)
    ensures
        0 <= buffer::model::spans_total(spans),
    decreases spans.len(),
{
    if spans.len() > 0 {
        lemma_spans_total_positive(spans.drop_last());
    }
}

/// Where in a file each span of a window is written: one after the other, from `position` on.
pub fn write_positions(window: &RegisteredRxWindowLease, position: u64) -> (positions: Vec<u64>)
    requires
        position + buffer::model::spans_total(window@.spans) <= u64::MAX,
    ensures
        positions@.len() == window@.spans.len(),
        forall|i: int|
            0 <= i < positions@.len() ==> #[trigger] positions@[i] == position
                + buffer::model::spans_total(window@.spans.take(i)),
{
    let spans = window.parts();
    let mut positions: Vec<u64> = Vec::new();
    let mut next: u64 = position;
    let mut index: usize = 0;
    while index < spans.len()
        invariant
            spans@ == window@.spans,
            position + buffer::model::spans_total(spans@) <= u64::MAX,
            index <= spans@.len(),
            next == position + buffer::model::spans_total(spans@.take(index as int)),
            positions@.len() == index,
            forall|i: int|
                0 <= i < index ==> #[trigger] positions@[i] == position
                    + buffer::model::spans_total(spans@.take(i)),
        decreases spans@.len() - index,
    {
        proof {
            assert(spans@.take(index + 1).drop_last() =~= spans@.take(index as int));
            lemma_spans_total(spans@, index + 1);
        }
        positions.push(next);
        next = next + spans[index].length as u64;
        index += 1;
    }
    positions
}

/// A window on its way to a worker.
pub struct WindowJob {
    pub order: u64,
    pub position: u64,
    pub window: RegisteredRxWindowLease,
}

/// What a worker made of a window.
pub struct WindowOutcome {
    pub order: u64,
    pub length: usize,
    pub digest: Result<Crc32Hasher>,
    pub window: RegisteredRxWindowLease,
}

/// A [`WindowOutcome`] with the bytes that its digest stands for.
pub struct OutcomeView {
    pub order: u64,
    pub length: usize,
    pub digest: core::result::Result<Seq<u8>, ErrorView>,
    pub window: LeaseView,
}

impl View for WindowOutcome {
    type V = OutcomeView;

    open spec fn view(&self) -> OutcomeView {
        OutcomeView {
            order: self.order,
            length: self.length,
            digest: match self.digest {
                Ok(digest) => Ok(digest@),
                Err(error) => Err(error@),
            },
            window: self.window@,
        }
    }
}

impl OutcomeView {
    /// The number of bytes that the digest stands for.
    pub open spec fn hashed(self) -> nat {
        match self.digest {
            Ok(bytes) => bytes.len(),
            Err(_) => 0,
        }
    }
}

/// The bytes that the digests of some outcomes stand for, in all.
pub open spec fn hashed_in(outcomes: Map<u64, OutcomeView>) -> nat
    decreases outcomes.dom().len(),
{
    if !outcomes.dom().finite() || outcomes.dom().len() == 0 {
        0
    } else {
        let order = outcomes.dom().choose();
        hashed_in(outcomes.remove(order)) + outcomes[order].hashed()
    }
}

proof fn lemma_hashed_remove(outcomes: Map<u64, OutcomeView>, order: u64)
    requires
        outcomes.dom().finite(),
        outcomes.contains_key(order),
    ensures
        hashed_in(outcomes.remove(order)) + outcomes[order].hashed() == hashed_in(outcomes),
    decreases outcomes.dom().len(),
{
    let first = outcomes.dom().choose();
    if first != order {
        lemma_hashed_remove(outcomes.remove(first), order);
        lemma_hashed_remove(outcomes.remove(order), first);
        assert(outcomes.remove(first).remove(order) =~= outcomes.remove(order).remove(first));
    }
}

/// The verification of a payload, window by window.
#[verifier::ext_equal]
pub struct SinkView {
    pub sink: WindowSink,
    /// The number of workers.
    pub workers: nat,
    /// The worker that gets the next window.
    pub next_worker: nat,
    /// The order of the next window.
    pub next_order: u64,
    /// The order of the window that is combined next.
    pub next_combine: u64,
    /// The windows that are with the workers.
    pub outstanding: nat,
    /// The outcomes that wait for an earlier one, by the order of their window.
    pub pending: Map<u64, OutcomeView>,
    /// The bytes that the combined digest stands for.
    pub combined: Seq<u8>,
    /// The number of bytes verified.
    pub actual_bytes: u64,
    /// The windows that can be given back, in wire order.
    pub recycled: Seq<LeaseView>,
    /// The first failure.
    pub failure: Option<ErrorView>,
}

impl SinkView {
    /// A verification that has seen no window.
    pub open spec fn fresh(sink: WindowSink, workers: nat) -> Self {
        SinkView {
            sink,
            workers,
            next_worker: 0,
            next_order: 0,
            next_combine: 0,
            outstanding: 0,
            pending: Map::empty(),
            combined: Seq::empty(),
            actual_bytes: 0,
            recycled: Seq::empty(),
            failure: None,
        }
    }

    /// There is a worker for the next window, and the digests fit one.
    pub open spec fn wf(self) -> bool {
        &&& self.next_worker < self.workers
        &&& self.pending.dom().finite()
        &&& self.combined.len() + hashed_in(self.pending) <= u64::MAX
    }

    /// Why a window is refused, if it is refused.
    pub open spec fn push_error(self, position: u64, window: LeaseView) -> Option<ErrorView> {
        if layout_error(window) is Some {
            layout_error(window)
        } else if position + window.length > u64::MAX {
            Some(ErrorView::InvalidConfiguration("registered RX window position overflow"@))
        } else if position + window.length > self.sink.expected_bytes {
            Some(ErrorView::Protocol("registered RX window exceeds expected sink length"@))
        } else if self.next_order == u64::MAX {
            Some(ErrorView::InvalidConfiguration("registered RX window order overflow"@))
        } else if self.outstanding == usize::MAX {
            Some(ErrorView::InvalidConfiguration("CRC pipeline outstanding overflow"@))
        } else {
            None
        }
    }

    /// Whether a window is refused only after its order was spent.
    pub open spec fn spends_order(self, position: u64, window: LeaseView) -> bool {
        &&& layout_error(window) is None
        &&& position + window.length <= u64::MAX
        &&& position + window.length <= self.sink.expected_bytes
        &&& self.next_order < u64::MAX
    }

    /// The verification after a window went to a worker.
    pub open spec fn after_push(self) -> Self {
        SinkView {
            next_order: (self.next_order + 1) as u64,
            next_worker: if self.next_worker + 1 == self.workers {
                0
            } else {
                self.next_worker + 1
            },
            outstanding: self.outstanding + 1,
            ..self
        }
    }

    /// The verification with an outcome among those that wait. One with the same order is replaced,
    /// which is a failure.
    pub open spec fn with_outcome(self, outcome: OutcomeView) -> Self {
        SinkView {
            outstanding: if self.outstanding == 0 {
                0
            } else {
                (self.outstanding - 1) as nat
            },
            pending: self.pending.insert(outcome.order, outcome),
            failure: if self.pending.contains_key(outcome.order) && self.failure is None {
                Some(ErrorView::Protocol("duplicate CRC window result"@))
            } else {
                self.failure
            },
            ..self
        }
    }

    /// The verification after it combined the outcome whose turn it is.
    pub open spec fn retire(self) -> Self {
        let outcome = self.pending[self.next_combine];
        SinkView {
            pending: self.pending.remove(self.next_combine),
            combined: match outcome.digest {
                Ok(bytes) => self.combined + bytes,
                Err(_) => self.combined,
            },
            actual_bytes: match outcome.digest {
                Ok(_) => if self.actual_bytes + outcome.length <= u64::MAX {
                    (self.actual_bytes + outcome.length) as u64
                } else {
                    u64::MAX
                },
                Err(_) => self.actual_bytes,
            },
            failure: match outcome.digest {
                Ok(_) => self.failure,
                Err(error) => if self.failure is None {
                    Some(error)
                } else {
                    self.failure
                },
            },
            recycled: self.recycled.push(outcome.window),
            next_combine: if self.next_combine < u64::MAX {
                (self.next_combine + 1) as u64
            } else {
                u64::MAX
            },
            ..self
        }
    }

    /// The verification after it combined every outcome whose turn it is.
    pub open spec fn settled(self) -> Self
        decreases self.pending.dom().len(),
    {
        if self.pending.dom().finite() && self.pending.contains_key(self.next_combine) {
            self.retire().settled()
        } else {
            self
        }
    }

    /// The verification after a worker handed over an outcome.
    pub open spec fn after_outcome(self, outcome: OutcomeView) -> Self {
        self.with_outcome(outcome).settled()
    }

    /// Why the verification cannot be concluded, if it cannot.
    pub open spec fn conclude_error(self, joined: bool) -> Option<ErrorView> {
        if self.outstanding != 0 {
            Some(
                ErrorView::Protocol(
                    "URMA RX CRC workers disconnected with pending windows"@,
                ),
            )
        } else if !joined {
            Some(ErrorView::Protocol("URMA RX CRC worker panicked"@))
        } else if self.failure is Some {
            self.failure
        } else if !self.pending.is_empty() || self.next_combine != self.next_order {
            Some(ErrorView::Protocol("CRC window result sequence gap"@))
        } else {
            None
        }
    }
}

/// The views of some outcomes.
pub open spec fn outcome_views(outcomes: Map<u64, WindowOutcome>) -> Map<u64, OutcomeView> {
    outcomes.map_values(|outcome: WindowOutcome| outcome@)
}

/// The views of some windows.
pub open spec fn lease_views(windows: Seq<RegisteredRxWindowLease>) -> Seq<LeaseView> {
    Seq::new(windows.len(), |i: int| windows[i]@)
}

/// Hands independent registered windows to several workers. Window digests may come back out of
/// order, but both digest combination and lease retirement happen in wire order: the pool reuses
/// each returned run of slots as a future registered window.
pub struct SinkPipeline {
    sink: WindowSink,
    workers: usize,
    next_worker: usize,
    next_order: u64,
    next_combine: u64,
    outstanding: usize,
    pending: BTreeMap<u64, WindowOutcome>,
    combined: Crc32Hasher,
    actual_bytes: u64,
    recycled: Vec<RegisteredRxWindowLease>,
    failure: Option<Error>,
}

impl View for SinkPipeline {
    type V = SinkView;

    closed spec fn view(&self) -> SinkView {
        SinkView {
            sink: self.sink,
            workers: self.workers as nat,
            next_worker: self.next_worker as nat,
            next_order: self.next_order,
            next_combine: self.next_combine,
            outstanding: self.outstanding as nat,
            pending: outcome_views(self.pending@),
            combined: self.combined@,
            actual_bytes: self.actual_bytes,
            recycled: lease_views(self.recycled@),
            failure: match self.failure {
                Some(error) => Some(error@),
                None => None,
            },
        }
    }
}

/// What a concluded verification arrived at.
pub struct WindowTotals {
    pub sink: WindowSink,
    pub actual_bytes: u64,
    pub actual_crc32: u32,
    pub recycled: Vec<RegisteredRxWindowLease>,
}

impl SinkPipeline {
    /// A verification with `worker_count` workers.
    pub fn start(sink: WindowSink, worker_count: usize) -> (pipeline: Result<Self>)
        ensures
            match pipeline {
                Ok(pipeline) => {
                    &&& worker_count > 0
                    &&& pipeline@ == SinkView::fresh(sink, worker_count as nat)
                    &&& pipeline@.wf()
                },
                Err(error) => {
                    &&& worker_count == 0
                    &&& error@ == ErrorView::InvalidConfiguration(
                        "CRC worker count must be non-zero"@,
                    )
                },
            },
    {
        if worker_count == 0 {
            return Err(invalid("CRC worker count must be non-zero"));
        }
        let pipeline = SinkPipeline {
            sink,
            workers: worker_count,
            next_worker: 0,
            next_order: 0,
            next_combine: 0,
            outstanding: 0,
            pending: BTreeMap::new(),
            combined: Crc32Hasher::new(),
            actual_bytes: 0,
            recycled: Vec::new(),
            failure: None,
        };
        assert(pipeline@ =~= SinkView::fresh(sink, worker_count as nat));
        Ok(pipeline)
    }

    /// Takes a window that starts at `position` of the payload, and says which worker gets it. Where
    /// no more windows can be counted, its order is spent all the same.
    pub fn push(&mut self, position: u64, window: RegisteredRxWindowLease) -> (pushed: Result<
        (usize, WindowJob),
    >)
        requires
            old(self)@.wf(),
        ensures
            final(self)@.wf(),
            match pushed {
                Ok((worker, job)) => {
                    &&& old(self)@.push_error(position, window@) is None
                    &&& final(self)@ == old(self)@.after_push()
                    &&& worker == old(self)@.next_worker
                    &&& job.order == old(self)@.next_order
                    &&& job.position == position
                    &&& job.window@ == window@
                },
                Err(error) => {
                    &&& old(self)@.push_error(position, window@) == Some(error@)
                    &&& final(self)@ == if old(self)@.spends_order(position, window@) {
                        SinkView { outstanding: old(self)@.outstanding, ..old(self)@.after_push() }
                    } else {
                        old(self)@
                    }
                },
            },
    {
        match validate_registered_window_layout(&window) {
            Ok(()) => {},
            Err(error) => {
                return Err(error);
            },
        }
        let end: u64 = match position.checked_add(window.len() as u64) {
            Some(end) => end,
            None => {
                return Err(invalid("registered RX window position overflow"));
            },
        };
        if end > self.sink.expected_bytes {
            return Err(protocol("registered RX window exceeds expected sink length"));
        }
        if self.next_order == u64::MAX {
            return Err(invalid("registered RX window order overflow"));
        }
        let order: u64 = self.next_order;
        let worker: usize = self.next_worker;
        self.next_order = order + 1;
        self.next_worker = if worker + 1 == self.workers {
            0
        } else {
            worker + 1
        };
        if self.outstanding == usize::MAX {
            assert(self@ =~= (SinkView {
                outstanding: old(self)@.outstanding,
                ..old(self)@.after_push()
            }));
            return Err(invalid("CRC pipeline outstanding overflow"));
        }
        self.outstanding = self.outstanding + 1;
        assert(self@ =~= old(self)@.after_push());
        Ok((worker, WindowJob { order, position, window }))
    }

    /// Notes that the last window did not reach its worker.
    pub fn worker_disconnected(&mut self) -> (error: Error)
        requires
            old(self)@.wf(),
        ensures
            final(self)@.wf(),
            final(self)@ == (SinkView {
                outstanding: if old(self)@.outstanding == 0 {
                    0
                } else {
                    (old(self)@.outstanding - 1) as nat
                },
                ..old(self)@
            }),
            error@ == ErrorView::Protocol("URMA RX CRC worker disconnected"@),
    {
        if self.outstanding > 0 {
            self.outstanding = self.outstanding - 1;
        }
        protocol("URMA RX CRC worker disconnected")
    }

    /// Takes what a worker made of a window, and combines and retires every window whose turn it
    /// is. No later run of slots is given back ahead of an earlier one.
    pub fn accept_outcome(&mut self, outcome: WindowOutcome)
        requires
            old(self)@.wf(),
            old(self)@.combined.len() + hashed_in(old(self)@.pending) + outcome@.hashed()
                <= u64::MAX,
        ensures
            final(self)@.wf(),
            final(self)@ == old(self)@.after_outcome(outcome@),
    {
        let ghost before = self@;
        if self.outstanding > 0 {
            self.outstanding = self.outstanding - 1;
        }
        let ghost taken = outcome@;
        proof {
            if before.pending.contains_key(taken.order) {
                lemma_hashed_remove(before.pending, taken.order);
            }
            let after = before.pending.insert(taken.order, taken);
            lemma_hashed_remove(after, taken.order);
            assert(after.remove(taken.order) =~= before.pending.remove(taken.order));
            if !before.pending.contains_key(taken.order) {
                assert(before.pending.remove(taken.order) =~= before.pending);
            }
        }
        let replaced = self.pending.insert(outcome.order, outcome);
        assert(outcome_views(self.pending@) =~= before.pending.insert(taken.order, taken));
        if replaced.is_some() && self.failure.is_none() {
            self.failure = Some(protocol("duplicate CRC window result"));
        }
        assert(self@ =~= before.with_outcome(taken));
        self.settle();
    }

    fn settle(&mut self)
        requires
            old(self)@.wf(),
        ensures
            final(self)@.wf(),
            final(self)@ == old(self)@.settled(),
    {
        let ghost target = self@.settled();
        let mut going = true;
        while going
            invariant
                self@.wf(),
                self@.settled() == target,
                !going ==> self@ == target,
            decreases
                self@.pending.dom().len() + if going {
                    1int
                } else {
                    0
                },
        {
            let ghost before = self@;
            proof {
                if before.pending.contains_key(before.next_combine) {
                    lemma_hashed_remove(before.pending, before.next_combine);
                }
            }
            let next_combine: u64 = self.next_combine;
            match self.pending.remove(&next_combine) {
                None => {
                    assert(outcome_views(self.pending@) =~= before.pending);
                    going = false;
                },
                Some(outcome) => {
                    assert(outcome_views(self.pending@) =~= before.pending.remove(next_combine));
                    assert(outcome@ == before.pending[next_combine]);
                    match outcome.digest {
                        Ok(digest) => {
                            self.combined.combine(&digest);
                            self.actual_bytes =
                            self.actual_bytes.saturating_add(outcome.length as u64);
                        },
                        Err(error) => {
                            if self.failure.is_none() {
                                self.failure = Some(error);
                            }
                        },
                    }
                    let ghost given = lease_views(self.recycled@);
                    self.recycled.push(outcome.window);
                    assert(lease_views(self.recycled@) =~= given.push(
                        before.pending[next_combine].window,
                    ));
                    self.next_combine = self.next_combine.saturating_add(1);
                    assert(self@ =~= before.retire());
                },
            }
        }
    }

    /// Hands out the windows that can be given back, in wire order.
    pub fn take_recycled(&mut self) -> (windows: Vec<RegisteredRxWindowLease>)
        requires
            old(self)@.wf(),
        ensures
            final(self)@.wf(),
            lease_views(windows@) == old(self)@.recycled,
            final(self)@ == (SinkView { recycled: Seq::empty(), ..old(self)@ }),
    {
        let mut windows: Vec<RegisteredRxWindowLease> = Vec::new();
        std::mem::swap(&mut windows, &mut self.recycled);
        assert(self@ =~= (SinkView { recycled: Seq::empty(), ..old(self)@ }));
        windows
    }

    /// Whether the workers may be gone: an error where windows are still with them.
    pub fn workers_gone(&self) -> (gone: Result<()>)
        ensures
            match gone {
                Ok(()) => self@.outstanding == 0,
                Err(error) => {
                    &&& self@.outstanding != 0
                    &&& error@ == ErrorView::Protocol(
                        "URMA RX CRC workers disconnected with pending windows"@,
                    )
                },
            },
    {
        if self.outstanding != 0 {
            return Err(protocol("URMA RX CRC workers disconnected with pending windows"));
        }
        Ok(())
    }

    /// The number of windows that are with the workers.
    pub fn outstanding(&self) -> (outstanding: usize)
        ensures
            outstanding == self@.outstanding,
    {
        self.outstanding
    }

    /// Ends the verification. `joined` says whether every worker ended in order.
    pub fn finish(self, joined: bool) -> (totals: Result<WindowTotals>)
        requires
            self@.wf(),
        ensures
            match totals {
                Ok(totals) => {
                    &&& self@.conclude_error(joined) is None
                    &&& totals.sink == self@.sink
                    &&& totals.actual_bytes == self@.actual_bytes
                    &&& totals.actual_crc32 == digest::crc32(self@.combined)
                    &&& lease_views(totals.recycled@) == self@.recycled
                },
                Err(error) => self@.conclude_error(joined) == Some(error@),
            },
    {
        match self.workers_gone() {
            Ok(()) => {},
            Err(error) => {
                return Err(error);
            },
        }
        if !joined {
            return Err(protocol("URMA RX CRC worker panicked"));
        }
        if let Some(error) = self.failure {
            return Err(error);
        }
        if !self.pending.is_empty() || self.next_combine != self.next_order {
            return Err(protocol("CRC window result sequence gap"));
        }
        Ok(
            WindowTotals {
                sink: self.sink,
                actual_bytes: self.actual_bytes,
                actual_crc32: self.combined.finalize(),
                recycled: self.recycled,
            },
        )
    }
}

/// The verification after the workers handed over some outcomes, in the order of their arrival.
pub open spec fn after_outcomes(start: SinkView, outcomes: Seq<OutcomeView>) -> SinkView
    decreases outcomes.len(),
{
    if outcomes.len() == 0 {
        start
    } else {
        after_outcomes(start, outcomes.drop_last()).after_outcome(outcomes.last())
    }
}

/// The bytes of the first windows, one after the other.
pub open spec fn bytes_of(windows: Seq<OutcomeView>, count: int) -> Seq<u8>
    decreases count,
{
    if count <= 0 {
        Seq::empty()
    } else {
        bytes_of(windows, count - 1) + windows[count - 1].digest->Ok_0
    }
}

/// The number of bytes in the first windows.
pub open spec fn length_of(windows: Seq<OutcomeView>, count: int) -> int
    decreases count,
{
    if count <= 0 {
        0
    } else {
        length_of(windows, count - 1) + windows[count - 1].length
    }
}

/// The leases of the first windows.
pub open spec fn leases_of(windows: Seq<OutcomeView>, count: int) -> Seq<LeaseView> {
    Seq::new(count as nat, |i: int| windows[i].window)
}

/// Whether the windows are numbered in wire order and each was hashed.
pub open spec fn numbered(windows: Seq<OutcomeView>) -> bool {
    &&& windows.len() <= u64::MAX
    &&& forall|i: int|
        0 <= i < windows.len() ==> (#[trigger] windows[i]).order == i && windows[i].digest is Ok
}

spec fn in_step(state: SinkView, windows: Seq<OutcomeView>, arrived: Set<int>) -> bool {
    let count = state.next_combine as int;
    &&& numbered(windows)
    &&& count <= windows.len()
    &&& forall|order: int| 0 <= order < count ==> #[trigger] arrived.contains(order)
    &&& state.pending.dom().finite()
    &&& forall|order: u64| #[trigger] state.pending.contains_key(order) <==> count <= order
        < windows.len() && arrived.contains(order as int)
    &&& forall|order: u64| #[trigger]
        state.pending.contains_key(order) ==> state.pending[order] == windows[order as int]
    &&& state.combined == bytes_of(windows, count)
    &&& state.recycled == leases_of(windows, count)
    &&& state.failure is None
    &&& state.actual_bytes == if length_of(windows, count) <= u64::MAX {
        length_of(windows, count)
    } else {
        u64::MAX as int
    }
}

proof fn lemma_settle_in_step(state: SinkView, windows: Seq<OutcomeView>, arrived: Set<int>)
    requires
        in_step(state, windows, arrived),
    ensures
        in_step(state.settled(), windows, arrived),
        !(state.settled().next_combine < windows.len() && arrived.contains(
            state.settled().next_combine as int,
        )),
    decreases state.pending.dom().len(),
{
    let count = state.next_combine as int;
    if state.pending.contains_key(state.next_combine) {
        let next = state.retire();
        assert(state.pending[state.next_combine] == windows[count]);
        assert(leases_of(windows, count + 1) =~= leases_of(windows, count).push(
            windows[count].window,
        ));
        assert forall|order: u64| #[trigger]
            next.pending.contains_key(order) implies state.pending.contains_key(order) by {}
        assert forall|order: u64|
            count < order < windows.len() && arrived.contains(
                order as int,
            ) implies #[trigger] next.pending.contains_key(order) by {
            assert(state.pending.contains_key(order));
        }
        lemma_length_grows(windows, count);
        lemma_settle_in_step(next, windows, arrived);
    }
}

proof fn lemma_length_grows(windows: Seq<OutcomeView>, count: int)
    ensures
        0 <= length_of(windows, count),
    decreases count,
{
    if count > 0 {
        lemma_length_grows(windows, count - 1);
    }
}

proof fn lemma_outcome_in_step(
    state: SinkView,
    windows: Seq<OutcomeView>,
    arrived: Set<int>,
    order: int,
)
    requires
        in_step(state, windows, arrived),
        0 <= order < windows.len(),
        !arrived.contains(order),
    ensures
        in_step(state.after_outcome(windows[order]), windows, arrived.insert(order)),
        ({
            let next = state.after_outcome(windows[order]).next_combine;
            !(next < windows.len() && arrived.insert(order).contains(next as int))
        }),
{
    let outcome = windows[order];
    let next = state.with_outcome(outcome);
    assert(outcome.order == order);
    assert(!state.pending.contains_key(outcome.order));
    let all = arrived.insert(order);
    assert forall|other: u64| #[trigger] next.pending.contains_key(other) implies other
        == outcome.order || state.pending.contains_key(other) by {}
    assert forall|other: u64|
        state.next_combine <= other < windows.len() && all.contains(
            other as int,
        ) implies #[trigger] next.pending.contains_key(other) by {
        assert(other == outcome.order || state.pending.contains_key(other));
    }
    lemma_settle_in_step(next, windows, all);
}

/// However the outcomes of numbered windows arrive, once all have arrived the windows are given
/// back in wire order, and the combined digest is that of their bytes in wire order.
pub proof fn windows_retire_in_wire_order(
    sink: WindowSink,
    workers: nat,
    windows: Seq<OutcomeView>,
    arrival: Seq<int>,
)
    requires
        numbered(windows),
        arrival.no_duplicates(),
        arrival.len() == windows.len(),
        forall|i: int| 0 <= i < arrival.len() ==> 0 <= #[trigger] arrival[i] < windows.len(),
    ensures
        ({
            let arrived = Seq::new(arrival.len(), |i: int| windows[arrival[i]]);
            let end = after_outcomes(SinkView::fresh(sink, workers), arrived);
            &&& end.recycled == leases_of(windows, windows.len() as int)
            &&& end.combined == bytes_of(windows, windows.len() as int)
            &&& end.next_combine == windows.len()
            &&& end.pending.is_empty()
            &&& end.failure is None
            &&& length_of(windows, windows.len() as int) <= u64::MAX ==> end.actual_bytes
                == length_of(windows, windows.len() as int)
        }),
{
    let fresh = SinkView::fresh(sink, workers);
    let arrived = Seq::new(arrival.len(), |i: int| windows[arrival[i]]);
    lemma_arrivals_in_step(fresh, windows, arrival);
    let end = after_outcomes(fresh, arrived);
    let all = arrival.to_set();
    arrival.unique_seq_to_set();
    let range = vstd::set_lib::set_int_range(0, windows.len() as int);
    vstd::set_lib::lemma_int_range(0, windows.len() as int);
    assert(all.subset_of(range)) by {
        assert forall|order: int| all.contains(order) implies range.contains(order) by {
            let i = choose|i: int| 0 <= i < arrival.len() && arrival[i] == order;
            assert(0 <= arrival[i] < windows.len());
        }
    }
    vstd::set_lib::lemma_subset_equality(all, range);
    if end.next_combine < windows.len() {
        assert(range.contains(end.next_combine as int));
    }
    assert forall|order: u64| !end.pending.contains_key(order) by {}
    assert(end.pending =~= Map::empty());
}

proof fn lemma_arrivals_in_step(fresh: SinkView, windows: Seq<OutcomeView>, arrival: Seq<int>)
    requires
        fresh == SinkView::fresh(fresh.sink, fresh.workers),
        numbered(windows),
        arrival.no_duplicates(),
        forall|i: int| 0 <= i < arrival.len() ==> 0 <= #[trigger] arrival[i] < windows.len(),
    ensures
        ({
            let end = after_outcomes(
                fresh,
                Seq::new(arrival.len(), |i: int| windows[arrival[i]]),
            );
            &&& in_step(end, windows, arrival.to_set())
            &&& !(end.next_combine < windows.len() && arrival.to_set().contains(
                end.next_combine as int,
            ))
        }),
    decreases arrival.len(),
{
    let arrived = Seq::new(arrival.len(), |i: int| windows[arrival[i]]);
    if arrival.len() == 0 {
        assert(arrived =~= Seq::<OutcomeView>::empty());
        assert(fresh.recycled =~= leases_of(windows, 0));
    } else {
        let fewer = arrival.drop_last();
        let last = arrival.last();
        lemma_arrivals_in_step(fresh, windows, fewer);
        assert(arrived.drop_last() =~= Seq::new(fewer.len(), |i: int| windows[fewer[i]]));
        assert(!fewer.to_set().contains(last));
        assert(fewer.to_set().insert(last) =~= arrival.to_set()) by {
            assert forall|order: int| arrival.to_set().contains(order) implies fewer.to_set().insert(
                last,
            ).contains(order) by {
                let i = choose|i: int| 0 <= i < arrival.len() && arrival[i] == order;
                if i < fewer.len() {
                    assert(fewer[i] == order);
                }
            }
            assert forall|order: int| fewer.to_set().insert(last).contains(
                order,
            ) implies arrival.to_set().contains(order) by {
                if order == last {
                    assert(arrival[arrival.len() - 1] == order);
                } else {
                    let i = choose|i: int| 0 <= i < fewer.len() && fewer[i] == order;
                    assert(arrival[i] == order);
                }
            }
        }
        lemma_outcome_in_step(
            after_outcomes(fresh, arrived.drop_last()),
            windows,
            fewer.to_set(),
            last,
        );
    }
}

} // verus!
