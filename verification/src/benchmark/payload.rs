//! Deterministic payloads, and sinks that check what arrives.

use vstd::prelude::*;

use super::{FileCompletionPolicy, IntegrityResult};
use crate::digest;
use crate::digest::{crc32_bytes, Crc32Hasher};
use crate::error::{invalid, Error, ErrorView, Result};

verus! {

/// The buffer of a file sink, where none is asked for.
pub const DEFAULT_FILE_BUFFER_SIZE: usize = 524288;

/// The increment of the payload generator's state.
pub const GENERATOR_STEP: u64 = 0x9e37_79b9_7f4a_7c15;

/// The generator's state after `count` words.
pub open spec fn state_after(state: u64, count: nat) -> u64
    decreases count,
{
    if count == 0 {
        state
    } else {
        state_after(state, (count - 1) as nat).wrapping_add(GENERATOR_STEP)
    }
}

/// The SplitMix64 word of a state.
pub open spec fn word_of(state: u64) -> u64 {
    let first = (state ^ (state >> 30)).wrapping_mul(0xbf58_476d_1ce4_e5b9);
    let second = (first ^ (first >> 27)).wrapping_mul(0x94d0_49bb_1331_11eb);
    second ^ (second >> 31)
}

/// The byte at `k` of a word, least significant first.
pub open spec fn word_byte(word: u64, k: nat) -> u8
    decreases k,
{
    if k == 0 {
        (word % 256) as u8
    } else {
        word_byte(word / 256, (k - 1) as nat)
    }
}

/// The byte at `k` of the payload that a seed stands for.
pub open spec fn stream(seed: u64, k: nat) -> u8 {
    word_byte(word_of(state_after(seed, k / 8 + 1)), k % 8)
}

/// The first `length` bytes of the payload that a seed stands for.
pub open spec fn payload(seed: u64, length: nat) -> Seq<u8> {
    Seq::new(length, |k: int| stream(seed, k as nat))
}

/// A source of payload bytes. SplitMix64 is small, reproducible, and sufficient for benchmark
/// payloads.
#[derive(Debug)]
pub struct DeterministicGenerator {
    state: u64,
    word: u64,
    left: u8,
}

proof fn lemma_state_after(state: u64, count: nat)
    ensures
        state_after(state.wrapping_add(GENERATOR_STEP), count) == state_after(state, count + 1),
    decreases count,
{
    reveal_with_fuel(state_after, 2);
    if count > 0 {
        lemma_state_after(state, (count - 1) as nat);
    }
}

impl DeterministicGenerator {
    /// The byte that comes `k` bytes from now.
    pub closed spec fn upcoming(self, k: nat) -> u8 {
        if k < self.left {
            word_byte(self.word, k)
        } else {
            stream(self.state, (k - self.left) as nat)
        }
    }

    /// The generator's invariant.
    pub closed spec fn wf(self) -> bool {
        self.left <= 8
    }

    /// The generator of a seed's payload.
    pub fn new(seed: u64) -> (generator: Self)
        ensures
            generator.wf(),
            forall|k: nat| #[trigger] generator.upcoming(k) == stream(seed, k),
    {
        DeterministicGenerator { state: seed, word: 0, left: 0 }
    }

    fn next_word(&mut self) -> (word: u64)
        ensures
            word == word_of(state_after(old(self).state, 1)),
            final(self).state == state_after(old(self).state, 1),
            final(self).word == old(self).word,
            final(self).left == old(self).left,
    {
        reveal_with_fuel(state_after, 2);
        self.state = self.state.wrapping_add(GENERATOR_STEP);
        let mut value: u64 = self.state;
        value = (value ^ (value >> 30)).wrapping_mul(0xbf58_476d_1ce4_e5b9);
        value = (value ^ (value >> 27)).wrapping_mul(0x94d0_49bb_1331_11eb);
        value ^ (value >> 31)
    }

    /// The next byte of the payload.
    pub fn next_byte(&mut self) -> (byte: u8)
        requires
            old(self).wf(),
        ensures
            final(self).wf(),
            byte == old(self).upcoming(0),
            forall|k: nat| #[trigger] final(self).upcoming(k) == old(self).upcoming(k + 1),
    {
        let ghost before = *self;
        if self.left == 0 {
            self.word = self.next_word();
            self.left = 8;
            proof {
                reveal_with_fuel(state_after, 2);
                assert forall|k: nat| #[trigger] self.upcoming(k) == before.upcoming(k) by {
                    if k < 8 {
                        assert(k / 8 == 0 && k % 8 == k);
                    } else {
                        let j = (k - 8) as nat;
                        lemma_state_after(before.state, j / 8 + 1);
                        assert(j / 8 + 1 == k / 8 && j % 8 == k % 8);
                    }
                }
            }
        }
        let ghost filled = *self;
        let byte: u8 = (self.word % 256) as u8;
        self.word = self.word / 256;
        self.left = self.left - 1;
        proof {
            assert(filled.upcoming(0) == byte);
            assert forall|k: nat| #[trigger] self.upcoming(k) == before.upcoming(k + 1) by {
                assert(filled.upcoming(k + 1) == before.upcoming(k + 1));
            }
        }
        byte
    }

    /// The next `length` bytes of the payload, appended to `output`.
    pub fn fill(&mut self, output: &mut Vec<u8>, length: usize)
        requires
            old(self).wf(),
        ensures
            final(self).wf(),
            final(output)@ == old(output)@ + Seq::new(
                length as nat,
                |k: int| old(self).upcoming(k as nat),
            ),
            forall|k: nat| #[trigger] final(self).upcoming(k) == old(self).upcoming(
                k + length as nat,
            ),
    {
        let ghost before = *self;
        let ghost written = output@;
        let mut index: usize = 0;
        assert(output@ =~= written + Seq::new(0, |k: int| before.upcoming(k as nat)));
        while index < length
            invariant
                self.wf(),
                index <= length,
                output@ == written + Seq::new(index as nat, |k: int| before.upcoming(k as nat)),
                forall|k: nat| #[trigger] self.upcoming(k) == before.upcoming(k + index as nat),
            decreases length - index,
        {
            let ghost earlier = *self;
            let byte: u8 = self.next_byte();
            assert(earlier.upcoming(0) == before.upcoming(index as nat));
            output.push(byte);
            assert(output@ =~= written + Seq::new(
                (index + 1) as nat,
                |k: int| before.upcoming(k as nat),
            ));
            assert forall|k: nat| #[trigger] self.upcoming(k) == before.upcoming(
                k + (index + 1) as nat,
            ) by {
                assert(earlier.upcoming(k + 1) == before.upcoming((k + 1) as nat + index as nat));
            }
            index += 1;
        }
    }
}

/// `Vec::try_reserve_exact` makes room for more elements or says why it cannot; it leaves the
/// elements as they are, and fails where the room would exceed `isize::MAX` bytes. Whether a smaller
/// reservation succeeds rests on the allocator and is left open, as is the text of the failure.
#[verifier::external_body]
fn reserve(bytes: &mut Vec<u8>, additional: usize) -> (reserved: core::result::Result<(), String>)
    ensures
        final(bytes)@ == old(bytes)@,
        additional > isize::MAX ==> reserved is Err,
{
    bytes.try_reserve_exact(additional).map_err(|error| error.to_string())
}

/// A payload in memory, and its checksum.
#[derive(Debug)]
pub struct MemorySource {
    bytes: Vec<u8>,
    expected_crc32: u32,
}

impl View for MemorySource {
    type V = Seq<u8>;

    /// The payload.
    closed spec fn view(&self) -> Seq<u8> {
        self.bytes@
    }
}

impl MemorySource {
    /// Whether the checksum is that of the payload.
    pub closed spec fn wf(self) -> bool {
        self.expected_crc32 == digest::crc32(self.bytes@)
    }

    /// The payload of a seed. It fails only where there is no room for it; none at all always has
    /// room.
    pub fn generate(length: u64, seed: u64) -> (generated: Result<Self>)
        ensures
            match generated {
                Ok(source) => {
                    &&& length <= isize::MAX
                    &&& source.wf()
                    &&& source@ == payload(seed, length as nat)
                },
                Err(error) => if length > usize::MAX {
                    error@ == ErrorView::InvalidConfiguration(
                        "memory source length does not fit this platform's usize"@,
                    )
                } else {
                    &&& length > 0
                    &&& exists|reason: Seq<char>| error@ == #[trigger] unallocated(reason)
                },
            },
    {
        if length > usize::MAX as u64 {
            return Err(invalid("memory source length does not fit this platform's usize"));
        }
        let mut bytes: Vec<u8> = Vec::new();
        let reserved = if length == 0 {
            Ok(())
        } else {
            reserve(&mut bytes, length as usize)
        };
        Self::generate_into(bytes, reserved, length as usize, seed)
    }

    /// The payload of a seed in an empty buffer, for what making room in it gave.
    pub fn generate_into(
        buffer: Vec<u8>,
        reserved: core::result::Result<(), String>,
        length: usize,
        seed: u64,
    ) -> (generated: Result<Self>)
        requires
            buffer@.len() == 0,
        ensures
            match reserved {
                Ok(()) => {
                    &&& generated matches Ok(source)
                    &&& source.wf()
                    &&& source@ == payload(seed, length as nat)
                },
                Err(reason) => {
                    &&& generated matches Err(error)
                    &&& error@ == unallocated(reason@)
                },
            },
    {
        match reserved {
            Ok(()) => {},
            Err(reason) => {
                let mut detail = "cannot allocate memory source: ".to_owned();
                detail.append(reason.as_str());
                return Err(Error::InvalidConfiguration(detail));
            },
        }
        let mut bytes = buffer;
        let mut generator = DeterministicGenerator::new(seed);
        generator.fill(&mut bytes, length);
        assert(bytes@ =~= payload(seed, length as nat));
        let expected_crc32: u32 = crc32_bytes(&bytes);
        Ok(MemorySource { bytes, expected_crc32 })
    }

    /// The payload.
    pub fn bytes(&self) -> (bytes: &[u8])
        ensures
            bytes@ == self@,
    {
        self.bytes.as_slice()
    }

    /// The payload in chunks of `chunk_size` bytes, the last of which may be shorter.
    pub fn chunks(&self, chunk_size: usize) -> (chunked: Result<Vec<&[u8]>>)
        ensures
            match chunked {
                Ok(chunks) => {
                    &&& chunk_size > 0
                    &&& chunks@.len() == super::chunks_of(self@.len(), chunk_size as nat)
                    &&& forall|k: int|
                        0 <= k < chunks@.len() ==> (#[trigger] chunks@[k])@ == chunk_at(
                            self@,
                            chunk_size as int,
                            k,
                        )
                },
                Err(error) => {
                    &&& chunk_size == 0
                    &&& error@ == ErrorView::InvalidConfiguration(
                        "memory source chunk_size must be non-zero"@,
                    )
                },
            },
    {
        if chunk_size == 0 {
            return Err(invalid("memory source chunk_size must be non-zero"));
        }
        let mut chunks: Vec<&[u8]> = Vec::new();
        let total: usize = self.bytes.len();
        let mut start: usize = 0;
        assert(chunks@.len() * chunk_size == 0) by (nonlinear_arith)
            requires
                chunks@.len() == 0,
        ;
        while start < total
            invariant
                chunk_size > 0,
                total == self@.len(),
                total == self.bytes@.len(),
                start == if chunks@.len() * chunk_size < total {
                    chunks@.len() * chunk_size
                } else {
                    total as int
                },
                chunks@.len() == 0 || (chunks@.len() - 1) * chunk_size < total,
                forall|k: int|
                    0 <= k < chunks@.len() ==> (#[trigger] chunks@[k])@ == chunk_at(
                        self@,
                        chunk_size as int,
                        k,
                    ),
            decreases total - start,
        {
            let rest: usize = total - start;
            let end: usize = if rest < chunk_size {
                total
            } else {
                start + chunk_size
            };
            let ghost done = chunks@.len() as int;
            chunks.push(vstd::slice::slice_subrange(self.bytes.as_slice(), start, end));
            proof {
                assert((done + 1) * chunk_size == done * chunk_size + chunk_size)
                    by (nonlinear_arith);
            }
            start = end;
        }
        proof {
            let count = chunks@.len();
            let total = self@.len();
            super::chunks_cover_the_transfer(total, chunk_size as nat);
            let expected = super::chunks_of(total, chunk_size as nat);
            assert(count == expected) by (nonlinear_arith)
                requires
                    chunk_size > 0,
                    total <= expected * chunk_size,
                    total > 0 ==> expected > 0 && (expected - 1) * chunk_size < total,
                    total == 0 ==> expected == 0,
                    count == 0 || (count - 1) * chunk_size < total,
                    total <= count * chunk_size,
            ;
        }
        Ok(chunks)
    }

    pub fn length(&self) -> (length: u64)
        ensures
            length == self@.len(),
    {
        self.bytes.len() as u64
    }

    pub fn expected_crc32(&self) -> (crc32: u32)
        requires
            self.wf(),
        ensures
            crc32 == digest::crc32(self@),
    {
        self.expected_crc32
    }
}

/// The error for a payload that there is no room for.
pub open spec fn unallocated(reason: Seq<char>) -> ErrorView {
    ErrorView::InvalidConfiguration("cannot allocate memory source: "@ + reason)
}

/// The chunk at `k` of some bytes.
pub open spec fn chunk_at(bytes: Seq<u8>, size: int, k: int) -> Seq<u8> {
    bytes.subrange(
        k * size,
        if (k + 1) * size < bytes.len() {
            (k + 1) * size
        } else {
            bytes.len() as int
        },
    )
}

/// Where a transfer's bytes go.
pub trait BenchmarkSink: Sized {
    /// Whether the sink can take bytes.
    spec fn wf(&self) -> bool;

    /// The bytes taken in.
    spec fn taken(&self) -> Seq<u8>;

    /// The length and the checksum that the sink was told to expect.
    spec fn expected(&self) -> (u64, u32);

    /// Whether the sink is sure to take these bytes in.
    spec fn takes(&self, bytes: Seq<u8>) -> bool;

    /// Whether the sink may refuse these bytes with this error.
    spec fn refuses(&self, bytes: Seq<u8>, error: ErrorView) -> bool;

    /// Takes bytes in.
    fn write_chunk(&mut self, bytes: &[u8]) -> (written: Result<()>)
        requires
            old(self).wf(),
        ensures
            old(self).takes(bytes@) ==> written is Ok,
            written matches Err(error) ==> old(self).refuses(bytes@, error@),
            written is Ok ==> {
                &&& final(self).wf()
                &&& final(self).expected() == old(self).expected()
                &&& final(self).taken() == old(self).taken() + bytes@
            },
    ;

    /// What came of the transfer.
    fn finish(self) -> (finished: Result<IntegrityResult>)
        requires
            self.wf(),
        ensures
            finished matches Ok(integrity) ==> integrity == IntegrityResult::judged(
                self.expected().0,
                self.taken().len() as u64,
                self.expected().1,
                digest::crc32(self.taken()),
            ),
    ;
}

/// A sink that keeps only a checksum.
pub struct MemorySink {
    expected_bytes: u64,
    expected_crc32: u32,
    actual_bytes: u64,
    hasher: Crc32Hasher,
}

impl MemorySink {
    /// A sink that expects this many bytes with this checksum.
    pub fn new(expected_bytes: u64, expected_crc32: u32) -> (sink: Self)
        ensures
            sink.wf(),
            sink.taken() == Seq::<u8>::empty(),
            sink.expected() == (expected_bytes, expected_crc32),
    {
        MemorySink { expected_bytes, expected_crc32, actual_bytes: 0, hasher: Crc32Hasher::new() }
    }
}

impl BenchmarkSink for MemorySink {
    closed spec fn wf(&self) -> bool {
        self.actual_bytes == self.hasher@.len()
    }

    closed spec fn taken(&self) -> Seq<u8> {
        self.hasher@
    }

    closed spec fn expected(&self) -> (u64, u32) {
        (self.expected_bytes, self.expected_crc32)
    }

    open spec fn takes(&self, bytes: Seq<u8>) -> bool {
        self.taken().len() + bytes.len() <= u64::MAX
    }

    open spec fn refuses(&self, bytes: Seq<u8>, error: ErrorView) -> bool {
        &&& self.taken().len() + bytes.len() > u64::MAX
        &&& error == ErrorView::InvalidConfiguration("memory sink length overflow"@)
    }

    fn write_chunk(&mut self, bytes: &[u8]) -> (written: Result<()>)
        ensures
            match written {
                Ok(()) => old(self).taken().len() + bytes@.len() <= u64::MAX,
                Err(error) => {
                    &&& old(self).taken().len() + bytes@.len() > u64::MAX
                    &&& error@ == ErrorView::InvalidConfiguration("memory sink length overflow"@)
                    &&& final(self).wf()
                    &&& final(self).taken() == old(self).taken()
                    &&& final(self).expected() == old(self).expected()
                },
            },
    {
        match self.actual_bytes.checked_add(bytes.len() as u64) {
            Some(actual_bytes) => {
                self.actual_bytes = actual_bytes;
                self.hasher.update(bytes);
                Ok(())
            },
            None => Err(invalid("memory sink length overflow")),
        }
    }

    fn finish(self) -> (finished: Result<IntegrityResult>)
        ensures
            finished is Ok,
    {
        Ok(
            IntegrityResult::new(
                self.expected_bytes,
                self.actual_bytes,
                self.expected_crc32,
                self.hasher.finalize(),
            ),
        )
    }
}

/// What a file sink knows: what was written, and what it was told to expect. The file itself
/// stands outside.
pub struct FileSink {
    expected_bytes: u64,
    expected_crc32: u32,
    actual_bytes: u64,
    hasher: Crc32Hasher,
    completion_policy: FileCompletionPolicy,
}

/// What a file sink knows.
#[verifier::ext_equal]
pub struct FileSinkView {
    pub expected_bytes: u64,
    pub expected_crc32: u32,
    /// The bytes handed to the sink.
    pub counted: nat,
    /// The bytes that were written.
    pub written: Seq<u8>,
    pub policy: FileCompletionPolicy,
}

impl FileSinkView {
    /// Whether this is the sink after it was handed some bytes, which were written or not.
    pub open spec fn follows(self, before: Self, bytes: Seq<u8>, written: bool) -> bool {
        &&& self.expected_bytes == before.expected_bytes
        &&& self.expected_crc32 == before.expected_crc32
        &&& self.policy == before.policy
        &&& self.counted == before.counted + bytes.len()
        &&& written ==> self.written == before.written + bytes
        &&& !written ==> self.written == before.written
    }
}

impl View for FileSink {
    type V = FileSinkView;

    closed spec fn view(&self) -> FileSinkView {
        FileSinkView {
            expected_bytes: self.expected_bytes,
            expected_crc32: self.expected_crc32,
            counted: self.actual_bytes as nat,
            written: self.hasher@,
            policy: self.completion_policy,
        }
    }
}

fn io(operation: &'static str, message: String) -> (error: Error)
    ensures
        error@ == (ErrorView::Io { operation: operation@, message: message@ }),
{
    Error::Io { operation, message }
}

impl FileSink {
    /// Whether no more was written than was handed in.
    pub closed spec fn wf(self) -> bool {
        self.hasher@.len() <= self.actual_bytes
    }

    /// Whether a buffer of this capacity will do.
    pub fn check_capacity(capacity: usize) -> (checked: Result<()>)
        ensures
            match checked {
                Ok(()) => capacity > 0,
                Err(error) => {
                    &&& capacity == 0
                    &&& error@ == ErrorView::InvalidConfiguration(
                        "file sink buffer capacity must be non-zero"@,
                    )
                },
            },
    {
        if capacity == 0 {
            return Err(invalid("file sink buffer capacity must be non-zero"));
        }
        Ok(())
    }

    /// A sink on a file, for what creating the file gave.
    pub fn create(
        expected_bytes: u64,
        expected_crc32: u32,
        completion_policy: FileCompletionPolicy,
        created: core::result::Result<(), String>,
    ) -> (sink: Result<Self>)
        ensures
            match created {
                Ok(()) => {
                    &&& sink matches Ok(sink)
                    &&& sink.wf()
                    &&& sink@ == (FileSinkView {
                        expected_bytes,
                        expected_crc32,
                        counted: 0,
                        written: Seq::empty(),
                        policy: completion_policy,
                    })
                },
                Err(message) => {
                    &&& sink matches Err(error)
                    &&& error@ == (ErrorView::Io {
                        operation: "create benchmark sink"@,
                        message: message@,
                    })
                },
            },
    {
        match created {
            Ok(()) => Ok(
                FileSink {
                    expected_bytes,
                    expected_crc32,
                    actual_bytes: 0,
                    hasher: Crc32Hasher::new(),
                    completion_policy,
                },
            ),
            Err(message) => Err(io("create benchmark sink", message)),
        }
    }

    /// Takes bytes in, for what writing them gave; it counts only where the length is not too large.
    pub fn write_chunk(&mut self, bytes: &[u8], written: core::result::Result<(), String>) -> (taken:
        Result<()>)
        requires
            old(self).wf(),
        ensures
            final(self).wf(),
            old(self)@.counted + bytes@.len() <= u64::MAX ==> final(self)@.follows(
                old(self)@,
                bytes@,
                written is Ok,
            ),
            if old(self)@.counted + bytes@.len() > u64::MAX {
                &&& taken matches Err(error)
                &&& error@ == ErrorView::InvalidConfiguration("file sink length overflow"@)
                &&& final(self)@ == old(self)@
            } else {
                match written {
                    Ok(()) => {
                        &&& taken is Ok
                        &&& final(self)@ == (FileSinkView {
                            counted: old(self)@.counted + bytes@.len(),
                            written: old(self)@.written + bytes@,
                            ..old(self)@
                        })
                    },
                    Err(message) => {
                        &&& taken matches Err(error)
                        &&& error@ == (ErrorView::Io {
                            operation: "write benchmark sink"@,
                            message: message@,
                        })
                        &&& final(self)@ == (FileSinkView {
                            counted: old(self)@.counted + bytes@.len(),
                            ..old(self)@
                        })
                    },
                }
            },
    {
        match self.actual_bytes.checked_add(bytes.len() as u64) {
            Some(actual_bytes) => {
                self.actual_bytes = actual_bytes;
            },
            None => {
                return Err(invalid("file sink length overflow"));
            },
        }
        match written {
            Ok(()) => {
                self.hasher.update(bytes);
                Ok(())
            },
            Err(message) => Err(io("write benchmark sink", message)),
        }
    }

    /// Whether the file's data are to be synced before the sink is finished.
    pub fn needs_sync(&self) -> (needed: bool)
        ensures
            needed == (self@.policy == FileCompletionPolicy::Durable),
    {
        self.completion_policy == FileCompletionPolicy::Durable
    }

    /// What came of the transfer, for what flushing and, where it is needed, syncing gave.
    pub fn finish(
        self,
        flushed: core::result::Result<(), String>,
        synced: core::result::Result<(), String>,
    ) -> (finished: Result<IntegrityResult>)
        ensures
            match flushed {
                Err(message) => {
                    &&& finished matches Err(error)
                    &&& error@ == (ErrorView::Io {
                        operation: "flush benchmark sink"@,
                        message: message@,
                    })
                },
                Ok(()) => if self@.policy == FileCompletionPolicy::Durable && synced is Err {
                    &&& finished matches Err(error)
                    &&& error@ == (ErrorView::Io {
                        operation: "sync benchmark sink data"@,
                        message: synced->Err_0@,
                    })
                } else {
                    &&& finished matches Ok(integrity)
                    &&& integrity == IntegrityResult::judged(
                        self@.expected_bytes,
                        self@.counted as u64,
                        self@.expected_crc32,
                        digest::crc32(self@.written),
                    )
                },
            },
    {
        match flushed {
            Ok(()) => {},
            Err(message) => {
                return Err(io("flush benchmark sink", message));
            },
        }
        if self.completion_policy == FileCompletionPolicy::Durable {
            match synced {
                Ok(()) => {},
                Err(message) => {
                    return Err(io("sync benchmark sink data", message));
                },
            }
        }
        Ok(
            IntegrityResult::new(
                self.expected_bytes,
                self.actual_bytes,
                self.expected_crc32,
                self.hasher.finalize(),
            ),
        )
    }
}

/// A file that is to be sent: its path, its length, its checksum.
#[derive(Debug, Eq, PartialEq)]
pub struct FileSource {
    pub path: String,
    pub length: u64,
    pub expected_crc32: u32,
}

impl FileSource {
    pub fn path(&self) -> (path: &str)
        ensures
            path@ == self.path@,
    {
        self.path.as_str()
    }

    pub fn length(&self) -> (length: u64)
        ensures
            length == self.length,
    {
        self.length
    }

    pub fn expected_crc32(&self) -> (crc32: u32)
        ensures
            crc32 == self.expected_crc32,
    {
        self.expected_crc32
    }
}

/// A file's payload, chunk by chunk.
pub struct FileGenerator {
    generator: DeterministicGenerator,
    hasher: Crc32Hasher,
    length: u64,
    remaining: u64,
    chunk_size: usize,
    seed: u64,
}

impl FileGenerator {
    /// The bytes given out so far.
    pub closed spec fn given(self) -> Seq<u8> {
        self.hasher@
    }

    /// The length of the whole payload.
    pub closed spec fn total(self) -> nat {
        self.length as nat
    }

    /// The length of a chunk.
    pub closed spec fn chunk(self) -> nat {
        self.chunk_size as nat
    }

    /// The seed of the payload.
    pub closed spec fn seeded(self) -> u64 {
        self.seed
    }

    /// Whether what was given out starts the payload of the seed, and the rest is to come.
    pub closed spec fn wf(self) -> bool {
        &&& self.chunk_size > 0
        &&& self.generator.wf()
        &&& self.hasher@.len() + self.remaining == self.length
        &&& self.hasher@ == payload(self.seed, self.hasher@.len())
        &&& forall|k: nat| #[trigger]
            self.generator.upcoming(k) == stream(self.seed, k + self.hasher@.len())
    }

    /// What a file is filled with is the payload that memory is filled with for the same seed,
    /// whatever the size of the chunks.
    pub proof fn files_hold_the_memory_payload(self)
        requires
            self.wf(),
        ensures
            self.given() == payload(self.seeded(), self.given().len()),
            self.given().len() <= self.total(),
            self.chunk() > 0,
    {
    }

    /// The payload of a seed in chunks of `chunk_size` bytes.
    pub fn new(length: u64, seed: u64, chunk_size: usize) -> (generator: Result<Self>)
        ensures
            match generator {
                Ok(generator) => {
                    &&& chunk_size > 0
                    &&& generator.wf()
                    &&& generator.seeded() == seed
                    &&& generator.given().len() == 0
                    &&& generator.total() == length
                    &&& generator.chunk() == chunk_size
                },
                Err(error) => {
                    &&& chunk_size == 0
                    &&& error@ == ErrorView::InvalidConfiguration(
                        "file source generation chunk_size must be non-zero"@,
                    )
                },
            },
    {
        if chunk_size == 0 {
            return Err(invalid("file source generation chunk_size must be non-zero"));
        }
        let made = FileGenerator {
            generator: DeterministicGenerator::new(seed),
            hasher: Crc32Hasher::new(),
            length,
            remaining: length,
            chunk_size,
            seed,
        };
        assert(made.hasher@ =~= payload(seed, 0));
        Ok(made)
    }

    /// The next chunk of the payload, which is empty at its end.
    pub fn next_chunk(&mut self) -> (chunk: Vec<u8>)
        requires
            old(self).wf(),
        ensures
            final(self).wf(),
            final(self).seeded() == old(self).seeded(),
            final(self).total() == old(self).total(),
            final(self).chunk() == old(self).chunk(),
            final(self).given() == old(self).given() + chunk@,
            chunk@.len() == if old(self).total() - old(self).given().len() < old(self).chunk() {
                old(self).total() - old(self).given().len()
            } else {
                old(self).chunk() as int
            },
    {
        let ghost given = self.hasher@;
        let ghost seed = self.seed;
        let amount: usize = if self.remaining < self.chunk_size as u64 {
            self.remaining as usize
        } else {
            self.chunk_size
        };
        let mut chunk: Vec<u8> = Vec::new();
        let ghost before = self.generator;
        self.generator.fill(&mut chunk, amount);
        self.hasher.update(&chunk);
        self.remaining = self.remaining - amount as u64;
        proof {
            assert(chunk@.len() == amount);
            assert(self.hasher@ =~= payload(seed, self.hasher@.len())) by {
                assert forall|k: int| 0 <= k < self.hasher@.len() implies self.hasher@[k] == stream(
                    seed,
                    k as nat,
                ) by {
                    if k < given.len() {
                        assert(given[k] == payload(seed, given.len())[k]);
                    } else {
                        let j = (k - given.len()) as nat;
                        assert(chunk@[j as int] == before.upcoming(j));
                        assert(before.upcoming(j) == stream(seed, j + given.len()));
                    }
                }
            }
            assert forall|k: nat| #[trigger]
                self.generator.upcoming(k) == stream(seed, k + self.hasher@.len()) by {
                assert(before.upcoming(k + amount as nat) == stream(
                    seed,
                    k + amount as nat + given.len(),
                ));
            }
        }
        chunk
    }

    /// The file that was generated.
    pub fn finish(self, path: String) -> (source: FileSource)
        requires
            self.wf(),
            self.given().len() == self.total(),
        ensures
            source.path@ == path@,
            source.length == self.total(),
            source.expected_crc32 == digest::crc32(payload(self.seeded(), self.total())),
    {
        FileSource { path, length: self.length, expected_crc32: self.hasher.finalize() }
    }
}

} // verus!
