//! The parent's side of a run: cutting the source into batches, filling and posting them, and
//! waiting for what was posted.

use vstd::prelude::*;

use super::control::Done;
use super::{idle_timeout_elapsed, PipelineTracker, PipelineView, RemoteCreditView, RemoteReceiveCredit};
use crate::benchmark;
use crate::benchmark::BenchmarkCase;
use crate::bytes::copy_range;
use crate::completion;
use crate::completion::{max_u64, CompletionEvent};
use crate::digest;
use crate::digest::Crc32Hasher;
use crate::error::{invalid, protocol, Error, ErrorView, Result};
use crate::message::{
    DigestAlgorithm, DigestDescriptor, DigestView, IntegrationBodyView, IntegrationMessageBodyV3,
    IntegrationMessageV3, IntegrationView,
};
use crate::text;
use crate::text::same_text;

verus! {

/// The request that a run is made with.
pub const REQUEST_ID: u64 = 1;

/// How long a run waits without progress, in nanoseconds.
pub const IDLE_TIMEOUT_NS: u128 = 30_000_000_000;

/// A payload `count` times over.
pub open spec fn repeated(payload: Seq<u8>, count: nat) -> Seq<u8>
    decreases count,
{
    if count == 0 {
        Seq::empty()
    } else {
        repeated(payload, (count - 1) as nat) + payload
    }
}

proof fn lemma_repeated(payload: Seq<u8>, first: nat, second: nat)
    ensures
        repeated(payload, first) + repeated(payload, second) == repeated(payload, first + second),
        repeated(payload, first).len() == payload.len() * first,
    decreases second, first,
{
    if second == 0 {
        assert(repeated(payload, first) + repeated(payload, 0) =~= repeated(payload, first));
        if first > 0 {
            lemma_repeated(payload, (first - 1) as nat, 0);
            assert(payload.len() * first == payload.len() * (first - 1) + payload.len())
                by (nonlinear_arith)
                requires
                    first > 0,
            ;
        } else {
            assert(payload.len() * 0 == 0) by (nonlinear_arith);
        }
    } else {
        lemma_repeated(payload, first, (second - 1) as nat);
        assert(repeated(payload, first) + repeated(payload, second) =~= repeated(payload, first)
            + repeated(payload, (second - 1) as nat) + payload);
    }
}

/// The checksum of a payload repeated `repetitions` times, by doubling.
pub fn repeated_payload_crc32(payload: &[u8], repetitions: u64) -> (checksum: u32)
    requires
        payload@.len() * repetitions <= u64::MAX,
    ensures
        checksum == digest::crc32(repeated(payload@, repetitions as nat)),
{
    let mut combined = Crc32Hasher::new();
    let mut block = Crc32Hasher::new();
    assert(payload.len() <= u64::MAX);
    block.update(payload);
    let mut remaining: u64 = repetitions;
    let ghost mut done: nat = 0;
    let ghost mut unit: nat = 1;
    proof {
        assert(Seq::<u8>::empty() + payload@ =~= payload@);
        assert(repeated(payload@, 1) =~= payload@) by {
            reveal_with_fuel(repeated, 2);
        }
    }
    while remaining != 0
        invariant
            payload@.len() * repetitions <= u64::MAX,
            combined@ == repeated(payload@, done),
            block@ == repeated(payload@, unit),
            repetitions == done + unit * remaining,
            unit > 0,
        decreases remaining,
    {
        let ghost before = remaining;
        proof {
            lemma_repeated(payload@, done, unit);
            lemma_repeated(payload@, unit, unit);
            lemma_repeated(payload@, done + unit, 0);
            lemma_repeated(payload@, unit + unit, 0);
            assert(unit <= unit * remaining) by (nonlinear_arith)
                requires
                    remaining >= 1,
            ;
            assert(payload@.len() * (done + unit) <= payload@.len() * repetitions)
                by (nonlinear_arith)
                requires
                    done + unit <= repetitions,
            ;
        }
        if remaining % 2 != 0 {
            combined.combine(&block);
            proof {
                done = done + unit;
                assert(unit * remaining == unit * (remaining - 1) + unit) by (nonlinear_arith);
            }
        }
        remaining = remaining / 2;
        if remaining != 0 {
            let copy = block.clone();
            proof {
                assert(unit + unit <= unit * before) by (nonlinear_arith)
                    requires
                        before >= 2,
                ;
                assert(payload@.len() * (unit + unit) <= payload@.len() * repetitions)
                    by (nonlinear_arith)
                    requires
                        unit + unit <= repetitions,
                ;
            }
            block.combine(&copy);
            proof {
                let even = (before - before % 2) as int;
                assert(unit * even == (unit + unit) * remaining) by (nonlinear_arith)
                    requires
                        even == 2 * remaining,
                ;
                unit = unit + unit;
            }
        } else {
            assert(unit * 0 == 0) by (nonlinear_arith);
        }
    }
    assert(unit * 0 == 0) by (nonlinear_arith);
    combined.finalize()
}

/// How many chunks one batch holds.
pub open spec fn batch_count(remaining: nat, chunk_size: nat, max_chunks: nat) -> nat {
    let chunks = benchmark::chunks_of(remaining, chunk_size);
    if chunks <= max_chunks {
        chunks
    } else {
        max_chunks
    }
}

/// The lengths of the chunks of one batch: each is full but for the last of the source.
pub open spec fn batch_lengths(remaining: nat, chunk_size: nat, max_chunks: nat) -> Seq<nat> {
    let count = batch_count(remaining, chunk_size, max_chunks);
    Seq::new(
        count,
        |i: int|
            if remaining - chunk_size * i < chunk_size {
                (remaining - chunk_size * i) as nat
            } else {
                chunk_size
            },
    )
}

/// The number of bytes in one batch.
pub open spec fn batch_bytes(remaining: nat, chunk_size: nat, max_chunks: nat) -> nat {
    if remaining <= chunk_size * max_chunks {
        remaining
    } else {
        chunk_size * max_chunks
    }
}

/// The lengths as natural numbers.
pub open spec fn length_views(lengths: Seq<usize>) -> Seq<nat> {
    Seq::new(lengths.len(), |i: int| lengths[i] as nat)
}

/// The sum of some lengths.
pub open spec fn total_of(lengths: Seq<nat>) -> nat
    decreases lengths.len(),
{
    if lengths.len() == 0 {
        0
    } else {
        total_of(lengths.drop_last()) + lengths.last()
    }
}

proof fn lemma_chunks_bound(remaining: nat, chunk_size: nat)
    requires
        remaining > 0,
        chunk_size > 0,
    ensures
        ({
            let chunks = benchmark::chunks_of(remaining, chunk_size);
            &&& chunks >= 1
            &&& chunk_size * (chunks - 1) < remaining <= chunk_size * chunks
            &&& chunks <= remaining
        }),
{
    let chunks = benchmark::chunks_of(remaining, chunk_size);
    benchmark::chunks_cover_the_transfer(remaining, chunk_size);
    assert(chunk_size * (chunks - 1) == (chunks - 1) * chunk_size) by (nonlinear_arith);
    assert(chunk_size * chunks == chunks * chunk_size) by (nonlinear_arith);
}

/// The chunks of a batch add up to its bytes, and are no longer than a chunk and not empty.
pub proof fn batches_are_cut_exactly(remaining: nat, chunk_size: nat, max_chunks: nat)
    requires
        remaining > 0,
        chunk_size > 0,
        max_chunks > 0,
    ensures
        ({
            let lengths = batch_lengths(remaining, chunk_size, max_chunks);
            &&& 0 < lengths.len() <= max_chunks
            &&& total_of(lengths) == batch_bytes(remaining, chunk_size, max_chunks)
            &&& forall|i: int| 0 <= i < lengths.len() ==> 0 < #[trigger] lengths[i] <= chunk_size
            &&& forall|i: int| 0 <= i < lengths.len() - 1 ==> #[trigger] lengths[i] == chunk_size
            &&& 0 < batch_bytes(remaining, chunk_size, max_chunks) <= remaining
        }),
{
    let lengths = batch_lengths(remaining, chunk_size, max_chunks);
    let count = lengths.len();
    let chunks = benchmark::chunks_of(remaining, chunk_size);
    lemma_chunks_bound(remaining, chunk_size);
    assert forall|i: int| 0 <= i < count implies 0 < #[trigger] lengths[i] <= chunk_size by {
        assert(chunk_size * i <= chunk_size * (chunks - 1)) by (nonlinear_arith)
            requires
                i <= chunks - 1,
                chunk_size > 0,
        ;
    }
    assert forall|i: int| 0 <= i < count - 1 implies #[trigger] lengths[i] == chunk_size by {
        assert(chunk_size * (i + 1) <= chunk_size * (chunks - 1)) by (nonlinear_arith)
            requires
                i + 1 <= chunks - 1,
                chunk_size > 0,
        ;
        assert(chunk_size * (i + 1) == chunk_size * i + chunk_size) by (nonlinear_arith);
    }
    lemma_full_total(lengths.drop_last(), chunk_size);
    assert(chunk_size * count == chunk_size * (count - 1) + chunk_size) by (nonlinear_arith);
    if chunks <= max_chunks {
        assert(chunk_size * chunks <= chunk_size * max_chunks) by (nonlinear_arith)
            requires
                chunks <= max_chunks,
        ;
    } else {
        assert(chunk_size * max_chunks <= chunk_size * (chunks - 1)) by (nonlinear_arith)
            requires
                max_chunks <= chunks - 1,
        ;
    }
    assert(0 < chunk_size * max_chunks) by (nonlinear_arith)
        requires
            chunk_size > 0,
            max_chunks > 0,
    ;
}

proof fn lemma_full_total(lengths: Seq<nat>, chunk_size: nat)
    requires
        forall|i: int| 0 <= i < lengths.len() ==> #[trigger] lengths[i] == chunk_size,
    ensures
        total_of(lengths) == chunk_size * lengths.len(),
    decreases lengths.len(),
{
    if lengths.len() > 0 {
        lemma_full_total(lengths.drop_last(), chunk_size);
        assert(chunk_size * lengths.len() == chunk_size * (lengths.len() - 1) + chunk_size)
            by (nonlinear_arith);
    } else {
        assert(chunk_size * 0 == 0) by (nonlinear_arith);
    }
}

proof fn lemma_total_grows(lengths: Seq<nat>, few: int)
    requires
        0 <= few <= lengths.len(),
    ensures
        total_of(lengths.take(few)) <= total_of(lengths),
    decreases lengths.len() - few,
{
    if few < lengths.len() {
        lemma_total_grows(lengths, few + 1);
        assert(lengths.take(few + 1).drop_last() =~= lengths.take(few));
    } else {
        assert(lengths.take(few) =~= lengths);
    }
}

/// The lengths of the chunks of the next batch.
pub fn tx_batch_lengths(remaining: u64, chunk_size: usize, max_chunks: usize) -> (lengths: Result<
    Vec<usize>,
>)
    ensures
        match lengths {
            Ok(lengths) => {
                &&& remaining > 0 && chunk_size > 0 && max_chunks > 0
                &&& length_views(lengths@) == batch_lengths(
                    remaining as nat,
                    chunk_size as nat,
                    max_chunks as nat,
                )
            },
            Err(error) => {
                &&& remaining == 0 || chunk_size == 0 || max_chunks == 0
                &&& error@ == ErrorView::InvalidConfiguration(
                    "file TX batch requires remaining bytes, chunk size, and capacity"@,
                )
            },
        },
{
    if remaining == 0 || chunk_size == 0 || max_chunks == 0 {
        return Err(invalid("file TX batch requires remaining bytes, chunk size, and capacity"));
    }
    let ghost expected = batch_lengths(remaining as nat, chunk_size as nat, max_chunks as nat);
    proof {
        lemma_chunks_bound(remaining as nat, chunk_size as nat);
    }
    let mut lengths: Vec<usize> = Vec::new();
    let mut left: u64 = remaining;
    while left > 0 && lengths.len() < max_chunks
        invariant
            expected == batch_lengths(remaining as nat, chunk_size as nat, max_chunks as nat),
            remaining > 0,
            chunk_size > 0,
            max_chunks > 0,
            lengths@.len() <= expected.len(),
            left == if remaining - chunk_size * lengths@.len() > 0 {
                remaining - chunk_size * lengths@.len()
            } else {
                0
            },
            forall|i: int| 0 <= i < lengths@.len() ==> #[trigger] lengths@[i] == expected[i],
        decreases left,
    {
        let ghost count = lengths@.len();
        proof {
            lemma_chunks_bound(remaining as nat, chunk_size as nat);
            let chunks = benchmark::chunks_of(remaining as nat, chunk_size as nat);
            if count >= chunks {
                assert(chunk_size * chunks <= chunk_size * count) by (nonlinear_arith)
                    requires
                        chunks <= count,
                ;
            }
            assert(chunk_size * (count + 1) == chunk_size * count + chunk_size)
                by (nonlinear_arith);
        }
        if left < chunk_size as u64 {
            lengths.push(left as usize);
            left = 0;
        } else {
            lengths.push(chunk_size);
            left = left - chunk_size as u64;
        }
    }
    proof {
        let chunks = benchmark::chunks_of(remaining as nat, chunk_size as nat);
        let count = lengths@.len();
        lemma_chunks_bound(remaining as nat, chunk_size as nat);
        if left == 0 && count < chunks {
            assert(chunk_size * count <= chunk_size * (chunks - 1)) by (nonlinear_arith)
                requires
                    count <= chunks - 1,
            ;
        }
        assert(length_views(lengths@) =~= expected);
    }
    Ok(lengths)
}

/// The next batch of a source.
pub struct BatchPlan {
    /// The lengths of its chunks.
    pub lengths: Vec<usize>,
    /// The number of its bytes.
    pub bytes: u64,
}

/// What a batch of the source holds.
pub struct BatchView {
    pub lengths: Seq<nat>,
    pub bytes: nat,
}

impl View for BatchPlan {
    type V = BatchView;

    open spec fn view(&self) -> BatchView {
        BatchView { lengths: length_views(self.lengths@), bytes: self.bytes as nat }
    }
}

/// What one fill of a batch took.
#[derive(Clone, Copy, Debug, Eq, PartialEq, Structural)]
pub struct FillSample {
    /// Whether the bytes were read from a file.
    pub used_pread: bool,
    pub pread_calls: u64,
    pub pread_ns: u64,
    pub fill_ns: u64,
}

/// Counters of the fills.
#[derive(Clone, Copy, Debug, Eq, PartialEq, Structural)]
pub struct TxFillStats {
    pub pread_calls: u64,
    pub pread_bytes: u64,
    pub pread_ns: u64,
    pub file_batch_count: u64,
    pub file_batch_max_bytes: u64,
    pub fill_bytes: u64,
    pub fill_ns: u64,
    pub overlap_batches: u64,
    pub ring_windows: u64,
}

impl Default for TxFillStats {
    fn default() -> (stats: Self)
        ensures
            stats == (TxFillStats {
                pread_calls: 0,
                pread_bytes: 0,
                pread_ns: 0,
                file_batch_count: 0,
                file_batch_max_bytes: 0,
                fill_bytes: 0,
                fill_ns: 0,
                overlap_batches: 0,
                ring_windows: 0,
            }),
    {
        TxFillStats {
            pread_calls: 0,
            pread_bytes: 0,
            pread_ns: 0,
            file_batch_count: 0,
            file_batch_max_bytes: 0,
            fill_bytes: 0,
            fill_ns: 0,
            overlap_batches: 0,
            ring_windows: 0,
        }
    }
}

impl TxFillStats {
    /// The counters after a batch was filled.
    pub open spec fn after(
        self,
        bytes: u64,
        sample: FillSample,
        is_file: bool,
        overlaps_send: bool,
    ) -> Self {
        TxFillStats {
            pread_ns: completion::saturated(self.pread_ns + sample.pread_ns),
            pread_calls: completion::saturated(self.pread_calls + sample.pread_calls),
            pread_bytes: if sample.used_pread {
                completion::saturated(self.pread_bytes + bytes)
            } else {
                self.pread_bytes
            },
            fill_bytes: completion::saturated(self.fill_bytes + bytes),
            fill_ns: completion::saturated(self.fill_ns + sample.fill_ns),
            ring_windows: completion::larger(
                self.ring_windows,
                if overlaps_send {
                    2
                } else {
                    1
                },
            ),
            overlap_batches: if overlaps_send {
                completion::saturated(self.overlap_batches + 1)
            } else {
                self.overlap_batches
            },
            file_batch_count: if is_file {
                completion::saturated(self.file_batch_count + 1)
            } else {
                self.file_batch_count
            },
            file_batch_max_bytes: if is_file {
                completion::larger(self.file_batch_max_bytes, bytes)
            } else {
                self.file_batch_max_bytes
            },
        }
    }

    /// Counts a filled batch.
    pub fn record(&mut self, bytes: u64, sample: FillSample, is_file: bool, overlaps_send: bool)
        ensures
            *final(self) == old(self).after(bytes, sample, is_file, overlaps_send),
    {
        self.pread_ns = self.pread_ns.saturating_add(sample.pread_ns);
        self.pread_calls = self.pread_calls.saturating_add(sample.pread_calls);
        if sample.used_pread {
            self.pread_bytes = self.pread_bytes.saturating_add(bytes);
        }
        self.fill_bytes = self.fill_bytes.saturating_add(bytes);
        self.fill_ns = self.fill_ns.saturating_add(sample.fill_ns);
        self.ring_windows = max_u64(
            self.ring_windows,
            if overlaps_send {
                2
            } else {
                1
            },
        );
        if overlaps_send {
            self.overlap_batches = self.overlap_batches.saturating_add(1);
        }
        if is_file {
            self.file_batch_count = self.file_batch_count.saturating_add(1);
            self.file_batch_max_bytes = max_u64(self.file_batch_max_bytes, bytes);
        }
    }
}

/// Why a range of a source in memory is refused, if it is refused.
pub open spec fn range_error(available: nat, offset: nat, length: nat) -> Option<ErrorView> {
    if offset > usize::MAX {
        Some(ErrorView::InvalidConfiguration("TX source offset exceeds usize"@))
    } else if offset + length > usize::MAX {
        Some(ErrorView::InvalidConfiguration("TX source range overflow"@))
    } else if offset + length > available {
        Some(ErrorView::InvalidConfiguration("TX source range exceeds payload"@))
    } else {
        None
    }
}

/// The bytes of a batch of a source in memory.
pub fn source_range(bytes: &[u8], offset: u64, length: usize) -> (range: Result<Vec<u8>>)
    ensures
        match range {
            Ok(range) => {
                &&& range_error(bytes@.len(), offset as nat, length as nat) is None
                &&& range@ == bytes@.subrange(offset as int, offset + length)
            },
            Err(error) => range_error(bytes@.len(), offset as nat, length as nat) == Some(error@),
        },
{
    if offset > usize::MAX as u64 {
        return Err(invalid("TX source offset exceeds usize"));
    }
    let start: usize = offset as usize;
    let end: usize = match start.checked_add(length) {
        Some(end) => end,
        None => {
            return Err(invalid("TX source range overflow"));
        },
    };
    if end > bytes.len() {
        return Err(invalid("TX source range exceeds payload"));
    }
    Ok(copy_range(bytes, start, end))
}

/// What one positional read gave.
pub enum PreadOutcome {
    /// The number of bytes read; none at the end of the file.
    Read(usize),
    /// The read was interrupted before it moved any byte.
    Interrupted,
    /// The read failed, with the system's message.
    Failed(String),
}

/// A read of a whole range of a file, in as many steps as it takes.
#[derive(Debug, Eq, PartialEq)]
pub struct PositionalRead {
    pub offset: u64,
    pub length: usize,
    pub filled: usize,
    pub calls: u64,
}

impl PositionalRead {
    /// No more is filled than is asked for.
    pub open spec fn wf(self) -> bool {
        self.filled <= self.length && self.offset + self.length <= u64::MAX
    }

    /// A read of `length` bytes from `offset` on.
    pub fn new(offset: u64, length: usize) -> (read: Self)
        requires
            offset + length <= u64::MAX,
        ensures
            read.wf(),
            read == (PositionalRead { offset, length, filled: 0, calls: 0 }),
    {
        PositionalRead { offset, length, filled: 0, calls: 0 }
    }

    /// Where the next step reads, and how many bytes; none once the range is filled.
    pub fn next(&self) -> (step: Option<(u64, usize)>)
        requires
            self.wf(),
        ensures
            step == if self.filled < self.length {
                Some(((self.offset + self.filled) as u64, (self.length - self.filled) as usize))
            } else {
                None
            },
    {
        if self.filled < self.length {
            Some((self.offset + self.filled as u64, self.length - self.filled))
        } else {
            None
        }
    }

    /// Takes in what a step gave.
    pub fn observe(&mut self, outcome: PreadOutcome) -> (taken: Result<()>)
        requires
            old(self).wf(),
            outcome matches PreadOutcome::Read(count) ==> count <= old(self).length
                - old(self).filled,
        ensures
            final(self).wf(),
            ({
                let called = PositionalRead {
                    calls: completion::saturated(old(self).calls + 1),
                    ..*old(self)
                };
                match outcome {
                    PreadOutcome::Read(count) => if count == 0 {
                        &&& *final(self) == called
                        &&& taken matches Err(error)
                        &&& error@ == (ErrorView::Io {
                            operation: "pread benchmark source into registered TX"@,
                            message: "source file ended early"@,
                        })
                    } else {
                        &&& taken is Ok
                        &&& *final(self) == (PositionalRead {
                            filled: (old(self).filled + count) as usize,
                            ..called
                        })
                    },
                    PreadOutcome::Interrupted => taken is Ok && *final(self) == called,
                    PreadOutcome::Failed(message) => {
                        &&& *final(self) == called
                        &&& taken matches Err(error)
                        &&& error@ == (ErrorView::Io {
                            operation: "pread benchmark source into registered TX"@,
                            message: message@,
                        })
                    },
                }
            }),
    {
        self.calls = self.calls.saturating_add(1);
        match outcome {
            PreadOutcome::Read(count) => {
                if count == 0 {
                    return Err(
                        Error::Io {
                            operation: "pread benchmark source into registered TX",
                            message: "source file ended early".to_owned(),
                        },
                    );
                }
                self.filled = self.filled + count;
                Ok(())
            },
            PreadOutcome::Interrupted => Ok(()),
            PreadOutcome::Failed(message) => Err(
                Error::Io { operation: "pread benchmark source into registered TX", message },
            ),
        }
    }
}

/// A source on its way out, batch by batch.
#[derive(Debug, Eq, PartialEq)]
pub struct WindowedSend {
    pub source_length: u64,
    pub chunk_size: usize,
    pub capacity: usize,
    pub offset: u64,
    pub sequence: u32,
    pub bytes_sent: u64,
}

impl WindowedSend {
    /// The chunks sent so far are those of the source up to the offset, and all but the last chunk
    /// of the source are full.
    pub open spec fn wf(self) -> bool {
        &&& self.chunk_size > 0
        &&& self.capacity > 0
        &&& self.offset <= self.source_length
        &&& self.bytes_sent == self.offset
        &&& self.sequence == benchmark::chunks_of(self.offset as nat, self.chunk_size as nat)
        &&& self.offset < self.source_length ==> self.offset == self.chunk_size * self.sequence
    }

    /// The bytes that are left to send.
    pub open spec fn left(self) -> nat {
        (self.source_length - self.offset) as nat
    }

    /// The next batch.
    pub open spec fn batch(self) -> BatchView {
        BatchView {
            lengths: batch_lengths(self.left(), self.chunk_size as nat, self.capacity as nat),
            bytes: batch_bytes(self.left(), self.chunk_size as nat, self.capacity as nat),
        }
    }

    /// The sender after its next batch was posted.
    pub open spec fn after_batch(self) -> Self {
        WindowedSend {
            offset: (self.offset + self.batch().bytes) as u64,
            bytes_sent: (self.bytes_sent + self.batch().bytes) as u64,
            sequence: (self.sequence + self.batch().lengths.len()) as u32,
            ..self
        }
    }

    /// Nothing sent yet.
    pub fn new(source_length: u64, chunk_size: usize, capacity: usize) -> (send: Self)
        requires
            chunk_size > 0,
            capacity > 0,
        ensures
            send.wf(),
            send == (WindowedSend {
                source_length,
                chunk_size,
                capacity,
                offset: 0,
                sequence: 0,
                bytes_sent: 0,
            }),
    {
        proof {
            benchmark::chunks_cover_the_transfer(0, chunk_size as nat);
            assert(chunk_size * 0 == 0) by (nonlinear_arith);
        }
        WindowedSend {
            source_length,
            chunk_size,
            capacity,
            offset: 0,
            sequence: 0,
            bytes_sent: 0,
        }
    }

    /// Whether the whole source was posted.
    pub fn is_finished(&self) -> (finished: bool)
        ensures
            finished == (self.offset == self.source_length),
    {
        self.offset == self.source_length
    }

    /// The next batch of the source.
    pub fn next_batch(&self) -> (batch: Result<BatchPlan>)
        requires
            self.wf(),
            self.offset < self.source_length,
        ensures
            match batch {
                Ok(batch) => batch@ == self.batch() && self.batch().bytes <= usize::MAX,
                Err(error) => {
                    &&& self.batch().bytes > usize::MAX
                    &&& error@ == ErrorView::InvalidConfiguration("TX batch byte count overflow"@)
                },
            },
    {
        let lengths = match tx_batch_lengths(
            self.source_length - self.offset,
            self.chunk_size,
            self.capacity,
        ) {
            Ok(lengths) => lengths,
            Err(error) => {
                return Err(error);
            },
        };
        let ghost views = length_views(lengths@);
        proof {
            batches_are_cut_exactly(self.left(), self.chunk_size as nat, self.capacity as nat);
        }
        let mut bytes: usize = 0;
        let mut index: usize = 0;
        while index < lengths.len()
            invariant
                views == length_views(lengths@),
                index <= lengths@.len(),
                bytes == total_of(views.take(index as int)),
                total_of(views) == self.batch().bytes,
            decreases lengths@.len() - index,
        {
            proof {
                assert(views.take(index + 1).drop_last() =~= views.take(index as int));
                assert(views.take(index + 1).last() == lengths@[index as int]);
                lemma_total_grows(views, index + 1);
            }
            bytes =
            match bytes.checked_add(lengths[index]) {
                Some(bytes) => bytes,
                None => {
                    return Err(invalid("TX batch byte count overflow"));
                },
            };
            index += 1;
        }
        assert(views.take(views.len() as int) =~= views);
        Ok(BatchPlan { lengths, bytes: bytes as u64 })
    }

    /// How many free slots the next batch takes.
    pub fn next_count(&self) -> (count: usize)
        requires
            self.wf(),
            self.offset < self.source_length,
        ensures
            count == self.batch().lengths.len(),
    {
        let left: u64 = self.source_length - self.offset;
        let chunk: u64 = self.chunk_size as u64;
        proof {
            benchmark::chunks_cover_the_transfer(left as nat, chunk as nat);
            benchmark::lemma_chunks_of(
                left as nat,
                chunk as nat,
                (left / chunk) as nat,
                (left % chunk) as nat,
            );
        }
        let chunks: u64 = if left % chunk == 0 {
            left / chunk
        } else {
            left / chunk + 1
        };
        if chunks <= self.capacity as u64 {
            chunks as usize
        } else {
            self.capacity
        }
    }

    /// Whether the sends so far are to be drained before the next batch is filled: fewer TX slots are
    /// free than it needs.
    pub fn waits_before_fill(&self, free_tx: usize) -> (waits: bool)
        requires
            self.wf(),
            self.offset < self.source_length,
        ensures
            waits == (free_tx < self.batch().lengths.len()),
    {
        free_tx < self.next_count()
    }

    /// Why the posted batch cannot be counted, if it cannot.
    pub open spec fn posted_error(self) -> Option<ErrorView> {
        if self.batch().lengths.len() > u32::MAX {
            Some(ErrorView::Protocol("TX batch message count exceeds u32"@))
        } else if self.sequence + self.batch().lengths.len() > u32::MAX {
            Some(ErrorView::Protocol("URMA sequence overflow"@))
        } else {
            None
        }
    }

    /// Counts the next batch as posted.
    pub fn posted(&mut self, batch: &BatchPlan) -> (counted: Result<()>)
        requires
            old(self).wf(),
            old(self).offset < old(self).source_length,
            batch@ == old(self).batch(),
        ensures
            match counted {
                Ok(()) => {
                    &&& old(self).posted_error() is None
                    &&& *final(self) == old(self).after_batch()
                    &&& final(self).wf()
                    &&& final(self).offset > old(self).offset
                },
                Err(error) => {
                    &&& old(self).posted_error() == Some(error@)
                    &&& *final(self) == (WindowedSend {
                        offset: old(self).after_batch().offset,
                        bytes_sent: old(self).after_batch().bytes_sent,
                        ..*old(self)
                    })
                },
            },
    {
        let ghost before = *self;
        proof {
            batches_are_cut_exactly(before.left(), before.chunk_size as nat, before.capacity as nat);
        }
        self.offset = self.offset + batch.bytes;
        self.bytes_sent = self.bytes_sent + batch.bytes;
        if batch.lengths.len() as u64 > u32::MAX as u64 {
            return Err(protocol("TX batch message count exceeds u32"));
        }
        match self.sequence.checked_add(batch.lengths.len() as u32) {
            Some(sequence) => {
                self.sequence = sequence;
            },
            None => {
                return Err(protocol("URMA sequence overflow"));
            },
        }
        proof {
            lemma_batch_keeps_count(before);
        }
        Ok(())
    }
}

proof fn lemma_batch_keeps_count(send: WindowedSend)
    requires
        send.wf(),
        send.offset < send.source_length,
        send.sequence + send.batch().lengths.len() <= u32::MAX,
    ensures
        send.after_batch().wf(),
{
    let chunk = send.chunk_size as nat;
    let left = send.left();
    let count = send.batch().lengths.len();
    let chunks = benchmark::chunks_of(left, chunk);
    let after = send.after_batch();
    batches_are_cut_exactly(left, chunk, send.capacity as nat);
    lemma_chunks_bound(left, chunk);
    assert(chunk * (send.sequence + count) == chunk * send.sequence + chunk * count)
        by (nonlinear_arith);
    if chunks <= send.capacity {
        assert(chunk * chunks <= chunk * send.capacity) by (nonlinear_arith)
            requires
                chunks <= send.capacity,
        ;
        assert(after.offset == send.source_length);
        assert(chunk * (send.sequence + count - 1) == chunk * send.sequence + chunk * (count - 1))
            by (nonlinear_arith);
        lemma_chunks_unique(after.offset as nat, chunk, (send.sequence + count) as nat);
    } else {
        assert(chunk * send.capacity <= chunk * (chunks - 1)) by (nonlinear_arith)
            requires
                send.capacity <= chunks - 1,
        ;
        assert(chunk * (send.sequence + count - 1) == chunk * (send.sequence + count) - chunk)
            by (nonlinear_arith);
        lemma_chunks_unique(after.offset as nat, chunk, (send.sequence + count) as nat);
    }
}

proof fn lemma_chunks_unique(total: nat, chunk: nat, count: nat)
    requires
        chunk > 0,
        total > 0,
        count > 0,
        chunk * (count - 1) < total <= chunk * count,
    ensures
        benchmark::chunks_of(total, chunk) == count,
{
    let chunks = benchmark::chunks_of(total, chunk);
    lemma_chunks_bound(total, chunk);
    if chunks < count {
        assert(chunk * chunks <= chunk * (count - 1)) by (nonlinear_arith)
            requires
                chunks <= count - 1,
        ;
    } else if chunks > count {
        assert(chunk * count <= chunk * (chunks - 1)) by (nonlinear_arith)
            requires
                count <= chunks - 1,
        ;
    }
}

/// A sender that has posted its whole source has sent one message per chunk, and every byte.
pub proof fn windowed_sends_cover_the_source(send: WindowedSend)
    requires
        send.wf(),
        send.offset == send.source_length,
    ensures
        send.bytes_sent == send.source_length,
        send.sequence == benchmark::chunks_of(send.source_length as nat, send.chunk_size as nat),
{
}

/// A fixed payload on its way out, message by message.
#[derive(Debug, Eq, PartialEq)]
pub struct FixedSend {
    pub payload_len: usize,
    pub count: u32,
    pub sequence: u32,
    pub bytes_sent: u64,
}

impl FixedSend {
    /// The bytes sent are those of the messages sent.
    pub open spec fn wf(self) -> bool {
        &&& self.sequence <= self.count
        &&& self.bytes_sent == self.payload_len * self.sequence
    }

    /// Nothing sent yet.
    pub fn new(payload_len: usize, chunk_count: u64) -> (send: Result<Self>)
        ensures
            match send {
                Ok(send) => {
                    &&& chunk_count <= u32::MAX
                    &&& send.wf()
                    &&& send == (FixedSend {
                        payload_len,
                        count: chunk_count as u32,
                        sequence: 0,
                        bytes_sent: 0,
                    })
                },
                Err(error) => {
                    &&& chunk_count > u32::MAX
                    &&& error@ == ErrorView::Protocol("URMA sequence count exceeds u32"@)
                },
            },
    {
        if chunk_count > u32::MAX as u64 {
            return Err(protocol("URMA sequence count exceeds u32"));
        }
        assert(payload_len * 0 == 0) by (nonlinear_arith);
        Ok(FixedSend { payload_len, count: chunk_count as u32, sequence: 0, bytes_sent: 0 })
    }

    /// The next message and whether it is the last; none once all were sent.
    pub fn next(&self) -> (next: Option<(u32, bool)>)
        ensures
            next == if self.sequence < self.count {
                Some((self.sequence, self.sequence + 1 == self.count))
            } else {
                None
            },
    {
        if self.sequence < self.count {
            Some((self.sequence, self.sequence + 1 == self.count))
        } else {
            None
        }
    }

    /// Counts the next message as posted.
    pub fn posted(&mut self) -> (counted: Result<()>)
        requires
            old(self).wf(),
            old(self).sequence < old(self).count,
        ensures
            match counted {
                Ok(()) => {
                    &&& final(self).wf()
                    &&& *final(self) == (FixedSend {
                        sequence: (old(self).sequence + 1) as u32,
                        bytes_sent: (old(self).bytes_sent + old(self).payload_len) as u64,
                        ..*old(self)
                    })
                    &&& old(self).bytes_sent + old(self).payload_len <= u64::MAX
                },
                Err(error) => {
                    &&& old(self).bytes_sent + old(self).payload_len > u64::MAX
                    &&& error@ == ErrorView::Protocol("sent byte count overflow"@)
                    &&& *final(self) == *old(self)
                },
            },
    {
        match self.bytes_sent.checked_add(self.payload_len as u64) {
            Some(bytes_sent) => {
                proof {
                    assert(self.payload_len * (self.sequence + 1) == self.payload_len
                        * self.sequence + self.payload_len) by (nonlinear_arith);
                }
                self.bytes_sent = bytes_sent;
                self.sequence = self.sequence + 1;
                Ok(())
            },
            None => Err(protocol("sent byte count overflow")),
        }
    }
}

/// The credit and the pipeline after one message was posted, and why it cannot be counted.
pub open spec fn after_post(credit: RemoteCreditView, pipeline: PipelineView) -> (
    RemoteCreditView,
    PipelineView,
    Option<ErrorView>,
) {
    let consumed = RemoteCreditView {
        available: (credit.available - 1) as nat,
        consumed: credit.consumed + 1,
        ..credit
    };
    if credit.available == 0 {
        (
            credit,
            pipeline,
            Some(ErrorView::Protocol("SEND without remote receive credit"@)),
        )
    } else if credit.consumed == usize::MAX {
        (
            RemoteCreditView { consumed: credit.consumed, ..consumed },
            pipeline,
            Some(ErrorView::Protocol("remote receive credit consumption overflow"@)),
        )
    } else if pipeline.current == pipeline.window {
        (
            consumed,
            pipeline,
            Some(
                ErrorView::InvalidConfiguration(
                    "outstanding SEND would exceed configured window"@,
                ),
            ),
        )
    } else {
        (
            consumed,
            PipelineView {
                current: pipeline.current + 1,
                maximum: if pipeline.current + 1 > pipeline.maximum {
                    pipeline.current + 1
                } else {
                    pipeline.maximum
                },
                ..pipeline
            },
            None,
        )
    }
}

/// The pipeline after some completions were taken in: the number of sends that completed, or the
/// error of the first event that is refused.
pub open spec fn after_events(pipeline: PipelineView, events: Seq<completion::EventView>) -> (
    PipelineView,
    core::result::Result<nat, ErrorView>,
)
    decreases events.len(),
{
    if events.len() == 0 {
        (pipeline, Ok(0))
    } else {
        let (before, counted) = after_events(pipeline, events.drop_last());
        match counted {
            Err(error) => (before, Err(error)),
            Ok(count) => match events.last() {
                completion::EventView::SendCompleted { .. } => if before.current == 0 {
                    (before, Err(ErrorView::Protocol("send completion without outstanding SEND"@)))
                } else {
                    (
                        PipelineView { current: (before.current - 1) as nat, ..before },
                        Ok(count + 1),
                    )
                },
                completion::EventView::RecvCompleted { .. } => (
                    before,
                    Err(
                        ErrorView::Protocol(
                            "unexpected receive CQE while sending URMA payload"@,
                        ),
                    ),
                ),
            },
        }
    }
}

/// The views of some events.
pub open spec fn event_views(events: Seq<CompletionEvent>) -> Seq<completion::EventView> {
    Seq::new(events.len(), |i: int| events[i]@)
}

proof fn lemma_events_stop(pipeline: PipelineView, events: Seq<completion::EventView>, few: int)
    requires
        0 <= few <= events.len(),
        after_events(pipeline, events.take(few)).1 is Err,
    ensures
        after_events(pipeline, events) == after_events(pipeline, events.take(few)),
    decreases events.len() - few,
{
    if few < events.len() {
        assert(events.take(few + 1).drop_last() =~= events.take(few));
        lemma_events_stop(pipeline, events, few + 1);
    } else {
        assert(events.take(few) =~= events);
    }
}

/// Takes in the completions of one poll, which must all be of sends, and counts them.
pub fn take_send_completions(pipeline: &mut PipelineTracker, events: &Vec<CompletionEvent>) -> (taken:
    Result<usize>)
    requires
        old(pipeline)@.wf(),
    ensures
        final(pipeline)@.wf(),
        final(pipeline)@ == after_events(old(pipeline)@, event_views(events@)).0,
        match taken {
            Ok(count) => after_events(old(pipeline)@, event_views(events@)).1 == Ok::<
                nat,
                ErrorView,
            >(count as nat),
            Err(error) => after_events(old(pipeline)@, event_views(events@)).1 == Err::<
                nat,
                ErrorView,
            >(error@),
        },
{
    let ghost start = pipeline@;
    let ghost views = event_views(events@);
    let mut count: usize = 0;
    let mut index: usize = 0;
    assert(views.take(0) =~= Seq::<completion::EventView>::empty());
    while index < events.len()
        invariant
            views == event_views(events@),
            index <= events@.len(),
            count == index,
            start == old(pipeline)@,
            pipeline@.wf(),
            after_events(start, views.take(index as int)) == (
                pipeline@,
                Ok::<nat, ErrorView>(count as nat),
            ),
        decreases events@.len() - index,
    {
        proof {
            let longer = views.take(index + 1);
            assert(longer.drop_last() =~= views.take(index as int));
            assert(longer.last() == events@[index as int]@);
            if after_events(start, longer).1 is Err {
                lemma_events_stop(start, views, index + 1);
            }
        }
        match &events[index] {
            CompletionEvent::SendCompleted { slot: _ } => {
                match pipeline.completed() {
                    Ok(()) => {},
                    Err(error) => {
                        return Err(error);
                    },
                }
                count += 1;
            },
            CompletionEvent::RecvCompleted { slot: _, bytes: _ } => {
                return Err(protocol("unexpected receive CQE while sending URMA payload"));
            },
        }
        index += 1;
    }
    assert(views.take(views.len() as int) =~= views);
    Ok(count)
}

/// When progress was last made, after one poll that completed `completed` sends; an error once
/// nothing has completed for the idle timeout.
pub fn note_progress(
    completed: usize,
    last_progress: u128,
    now: u128,
    operation: &'static str,
) -> (progress: Result<u128>)
    ensures
        match progress {
            Ok(progress) => if completed != 0 {
                progress == now
            } else {
                progress == last_progress && now < last_progress + IDLE_TIMEOUT_NS
            },
            Err(error) => {
                &&& completed == 0
                &&& now >= last_progress + IDLE_TIMEOUT_NS
                &&& error@ == (ErrorView::Timeout { operation: operation@ })
            },
        },
{
    if completed != 0 {
        return Ok(now);
    }
    if idle_timeout_elapsed(last_progress, now, IDLE_TIMEOUT_NS) {
        return Err(Error::Timeout { operation });
    }
    Ok(last_progress)
}

/// Whether a message is the request of this run.
pub open spec fn is_request(message: IntegrationView, case: BenchmarkCase) -> bool {
    &&& message.request_id == REQUEST_ID
    &&& message.sequence == 0
    &&& message.body == (IntegrationBodyView::Request {
        task_id: case.case_id@,
        piece_number: case.repeat,
    })
}

/// Checks that a message is the request of this run.
pub fn check_request(message: &IntegrationMessageV3, case: &BenchmarkCase) -> (checked: Result<()>)
    ensures
        match checked {
            Ok(()) => is_request(message@, *case),
            Err(error) => {
                &&& !is_request(message@, *case)
                &&& error@ == ErrorView::Protocol("invalid URMA benchmark Request"@)
            },
        },
{
    match &message.body {
        IntegrationMessageBodyV3::Request { task_id, piece_number } => {
            if message.request_id == REQUEST_ID && message.sequence == 0 && same_text(
                task_id.as_str(),
                case.case_id.as_str(),
            ) && *piece_number == case.repeat {
                return Ok(());
            }
        },
        _ => {},
    }
    Err(protocol("invalid URMA benchmark Request"))
}

/// The metadata of a run.
pub fn run_metadata(case: &BenchmarkCase, expected_crc32: u32) -> (message: IntegrationMessageV3)
    ensures
        message@ == (IntegrationView {
            request_id: REQUEST_ID,
            sequence: 0,
            body: IntegrationBodyView::Metadata {
                offset: 0,
                total_length: case.transfer_bytes,
                digest: DigestView {
                    algorithm: DigestAlgorithm::Crc32,
                    value: text::decimal(expected_crc32 as nat),
                },
            },
        }),
{
    IntegrationMessageV3::metadata(
        REQUEST_ID,
        0,
        case.transfer_bytes,
        DigestDescriptor::crc32(expected_crc32),
    )
}

/// The end of a run of `data_messages` messages.
pub fn run_end(case: &BenchmarkCase, data_messages: u32) -> (message: IntegrationMessageV3)
    ensures
        message@ == (IntegrationView {
            request_id: REQUEST_ID,
            sequence: data_messages,
            body: IntegrationBodyView::End {
                total_length: case.transfer_bytes,
                chunk_count: data_messages,
            },
        }),
{
    IntegrationMessageV3::end(REQUEST_ID, data_messages, case.transfer_bytes)
}

/// Why a parent's run counts as failed after the end was sent, if it does.
pub open spec fn drained_error(
    pipeline: PipelineView,
    outstanding_send: nat,
    window: u32,
    data_messages: u32,
) -> Option<ErrorView> {
    if pipeline.current != 0 || outstanding_send != 0 {
        Some(ErrorView::Protocol("URMA pipeline did not fully drain"@))
    } else if window > 1 && data_messages > 1 && pipeline.maximum <= 1 {
        Some(
            ErrorView::Protocol(
                "configured W>1 but max_outstanding_send did not exceed one"@,
            ),
        )
    } else {
        None
    }
}

/// Checks that everything was drained, and that a window of more than one was used.
pub fn check_drained(
    pipeline: &PipelineTracker,
    outstanding_send: usize,
    window: u32,
    data_messages: u32,
) -> (checked: Result<()>)
    ensures
        match checked {
            Ok(()) => drained_error(
                pipeline@,
                outstanding_send as nat,
                window,
                data_messages,
            ) is None,
            Err(error) => drained_error(
                pipeline@,
                outstanding_send as nat,
                window,
                data_messages,
            ) == Some(error@),
        },
{
    if pipeline.current() != 0 || outstanding_send != 0 {
        return Err(protocol("URMA pipeline did not fully drain"));
    }
    if window > 1 && data_messages > 1 && pipeline.maximum() <= 1 {
        return Err(protocol("configured W>1 but max_outstanding_send did not exceed one"));
    }
    Ok(())
}

/// Checks that a child's report is on this run and that its payload was intact.
pub fn check_done(done: &Done, case: &BenchmarkCase) -> (checked: Result<()>)
    ensures
        match checked {
            Ok(()) => {
                &&& done.case_id@ == case.case_id@
                &&& done.integrity.length_ok && done.integrity.digest_ok
            },
            Err(error) => {
                &&& done.case_id@ != case.case_id@ || !done.integrity.length_ok
                    || !done.integrity.digest_ok
                &&& error@ == ErrorView::Protocol("invalid URMA benchmark Done"@)
            },
        },
{
    if !same_text(done.case_id.as_str(), case.case_id.as_str()) || !done.integrity.is_ok() {
        return Err(protocol("invalid URMA benchmark Done"));
    }
    Ok(())
}

/// Counts one posted message.
pub fn count_post(credit: &mut RemoteReceiveCredit, pipeline: &mut PipelineTracker) -> (counted:
    Result<()>)
    requires
        old(credit)@.wf(),
        old(pipeline)@.wf(),
    ensures
        final(credit)@.wf() || counted is Err,
        final(pipeline)@.wf(),
        ({
            let after = after_post(old(credit)@, old(pipeline)@);
            &&& final(credit)@ == after.0
            &&& final(pipeline)@ == after.1
            &&& match counted {
                Ok(()) => after.2 is None,
                Err(error) => after.2 == Some(error@),
            }
        }),
{
    match credit.consume() {
        Ok(()) => {},
        Err(error) => {
            return Err(error);
        },
    }
    pipeline.posted()
}

} // verus!
