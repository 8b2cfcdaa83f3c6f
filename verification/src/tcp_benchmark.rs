//! The blocking-TCP runs that others are compared with.

use vstd::prelude::*;

use crate::benchmark::{
    BenchmarkCase, BenchmarkResult, BenchmarkScenario, BenchmarkSink, BenchmarkTransport, CpuUsage,
    FileSource, IntegrityResult, MemorySink, MemorySource, TransportStats,
};
use crate::digest;
use crate::digest::ReadOutcome;
use crate::error::{invalid, protocol, Error, ErrorView, Result};
use crate::text;
use crate::text::{same_text, with_number, with_numbers};
use crate::urma_benchmark::stats;
use crate::urma_benchmark::stats::insert_entries;

pub mod laws;
pub mod wire;

use wire::{DoneMessage, MetadataMessage, MetadataView, TcpDoneView};

verus! {

/// The most bytes that one `sendfile` call moves.
pub const MAX_SENDFILE_COUNT: u64 = 0x7fff_f000;

/// Where a TCP run's bytes come from.
pub enum TcpBenchmarkSource {
    Memory(MemorySource),
    File(FileSource),
}

impl TcpBenchmarkSource {
    /// The scenario that the source is for.
    pub open spec fn scenario(self) -> BenchmarkScenario {
        match self {
            TcpBenchmarkSource::Memory(_) => BenchmarkScenario::Memory,
            TcpBenchmarkSource::File(_) => BenchmarkScenario::File,
        }
    }

    /// The number of bytes.
    pub open spec fn bytes(self) -> nat {
        match self {
            TcpBenchmarkSource::Memory(source) => source@.len(),
            TcpBenchmarkSource::File(source) => source.length as nat,
        }
    }

    /// Why the source does not fit a case, if it does not.
    pub open spec fn case_error(self, case: BenchmarkCase) -> Option<ErrorView> {
        if self.scenario() != case.scenario {
            Some(
                ErrorView::InvalidConfiguration(
                    "TCP source scenario does not match benchmark case"@,
                ),
            )
        } else if self.bytes() != case.transfer_bytes {
            Some(
                ErrorView::InvalidConfiguration(
                    "TCP source length "@ + text::decimal(self.bytes())
                        + " does not match case bytes "@ + text::decimal(case.transfer_bytes as nat)
                        + ""@,
                ),
            )
        } else {
            None
        }
    }

    /// Whether the source fits a case.
    pub fn validate(&self, case: &BenchmarkCase) -> (valid: Result<()>)
        ensures
            match valid {
                Ok(()) => self.case_error(*case) is None,
                Err(error) => self.case_error(*case) == Some(error@),
            },
    {
        let scenario = match self {
            TcpBenchmarkSource::Memory(_) => BenchmarkScenario::Memory,
            TcpBenchmarkSource::File(_) => BenchmarkScenario::File,
        };
        if scenario != case.scenario {
            return Err(invalid("TCP source scenario does not match benchmark case"));
        }
        let length: u64 = self.length();
        if length != case.transfer_bytes {
            return Err(
                Error::InvalidConfiguration(
                    with_numbers(
                        "TCP source length ",
                        length,
                        " does not match case bytes ",
                        case.transfer_bytes,
                        "",
                    ),
                ),
            );
        }
        Ok(())
    }

    /// The number of bytes.
    pub fn length(&self) -> (length: u64)
        ensures
            length == self.bytes(),
    {
        match self {
            TcpBenchmarkSource::Memory(source) => source.length(),
            TcpBenchmarkSource::File(source) => source.length(),
        }
    }

    /// The checksum of the bytes.
    pub fn expected_crc32(&self) -> (crc32: u32)
        requires
            self matches TcpBenchmarkSource::Memory(source) ==> source.wf(),
        ensures
            crc32 == match self {
                TcpBenchmarkSource::Memory(source) => digest::crc32(source@),
                TcpBenchmarkSource::File(source) => source.expected_crc32,
            },
    {
        match self {
            TcpBenchmarkSource::Memory(source) => source.expected_crc32(),
            TcpBenchmarkSource::File(source) => source.expected_crc32(),
        }
    }
}

/// Where a TCP run's bytes go.
#[derive(Debug, Eq, PartialEq)]
pub enum TcpBenchmarkDestination {
    Memory,
    /// The file is created, or emptied and used again.
    File(String),
    /// The file is created; that it exists already is an error.
    FreshFile(String),
}

impl TcpBenchmarkDestination {
    /// The scenario that the destination is for.
    pub open spec fn scenario(self) -> BenchmarkScenario {
        match self {
            TcpBenchmarkDestination::Memory => BenchmarkScenario::Memory,
            TcpBenchmarkDestination::File(_) => BenchmarkScenario::File,
            TcpBenchmarkDestination::FreshFile(_) => BenchmarkScenario::File,
        }
    }

    /// Whether the destination fits a case.
    pub fn validate(&self, case: &BenchmarkCase) -> (valid: Result<()>)
        ensures
            match valid {
                Ok(()) => self.scenario() == case.scenario,
                Err(error) => {
                    &&& self.scenario() != case.scenario
                    &&& error@ == ErrorView::InvalidConfiguration(
                        "TCP destination scenario does not match benchmark case"@,
                    )
                },
            },
    {
        let scenario = match self {
            TcpBenchmarkDestination::Memory => BenchmarkScenario::Memory,
            TcpBenchmarkDestination::File(_) => BenchmarkScenario::File,
            TcpBenchmarkDestination::FreshFile(_) => BenchmarkScenario::File,
        };
        if scenario != case.scenario {
            return Err(invalid("TCP destination scenario does not match benchmark case"));
        }
        Ok(())
    }
}

/// Why a case has no TCP run, if it has none.
pub open spec fn tcp_case_error(case: BenchmarkCase) -> Option<ErrorView> {
    if case.error() is Some {
        case.error()
    } else {
        match case.transport {
            BenchmarkTransport::TcpUserspace => None,
            BenchmarkTransport::TcpSendfile => if case.scenario == BenchmarkScenario::File {
                None
            } else {
                Some(
                    ErrorView::InvalidConfiguration(
                        "tcp-sendfile is only valid for the file scenario"@,
                    ),
                )
            },
            BenchmarkTransport::Urma => Some(
                ErrorView::InvalidConfiguration(
                    "B1 TCP runner does not implement the URMA transport"@,
                ),
            ),
        }
    }
}

/// Whether a case has a TCP run.
pub fn validate_tcp_case(case: &BenchmarkCase) -> (valid: Result<()>)
    ensures
        match valid {
            Ok(()) => tcp_case_error(*case) is None,
            Err(error) => tcp_case_error(*case) == Some(error@),
        },
{
    match case.validate() {
        Ok(()) => {},
        Err(error) => {
            return Err(error);
        },
    }
    match case.transport {
        BenchmarkTransport::TcpUserspace => Ok(()),
        BenchmarkTransport::TcpSendfile => {
            if case.scenario == BenchmarkScenario::File {
                Ok(())
            } else {
                Err(invalid("tcp-sendfile is only valid for the file scenario"))
            }
        },
        BenchmarkTransport::Urma => Err(
            invalid("B1 TCP runner does not implement the URMA transport"),
        ),
    }
}

/// What a TCP run counts.
#[derive(Clone, Copy, Debug, Eq, PartialEq, Structural)]
pub struct TcpTransportStats {
    pub parent_read_calls: u64,
    pub parent_write_calls: u64,
    pub child_read_calls: u64,
    pub partial_write_count: u64,
    pub sendfile_calls: u64,
    pub partial_sendfile_count: u64,
    pub bytes_sent: u64,
    pub bytes_received: u64,
}

impl Default for TcpTransportStats {
    fn default() -> (stats: Self)
        ensures
            stats == (TcpTransportStats {
                parent_read_calls: 0,
                parent_write_calls: 0,
                child_read_calls: 0,
                partial_write_count: 0,
                sendfile_calls: 0,
                partial_sendfile_count: 0,
                bytes_sent: 0,
                bytes_received: 0,
            }),
    {
        TcpTransportStats {
            parent_read_calls: 0,
            parent_write_calls: 0,
            child_read_calls: 0,
            partial_write_count: 0,
            sendfile_calls: 0,
            partial_sendfile_count: 0,
            bytes_sent: 0,
            bytes_received: 0,
        }
    }
}

/// The counters that describe the socket, by name.
pub open spec fn socket_entries(address_family: u64) -> Seq<(Seq<char>, u64)> {
    seq![
        ("tcp_nodelay"@, 1),
        ("blocking_socket"@, 1),
        ("socket_buffer_explicit"@, 0),
        ("connection_reuse"@, 0),
        ("address_family"@, address_family),
    ]
}

impl TcpTransportStats {
    /// The counters by name.
    pub open spec fn entries(self) -> Seq<(Seq<char>, u64)> {
        seq![
            ("parent_read_calls"@, self.parent_read_calls),
            ("parent_write_calls"@, self.parent_write_calls),
            ("child_read_calls"@, self.child_read_calls),
            ("partial_write_count"@, self.partial_write_count),
            ("sendfile_calls"@, self.sendfile_calls),
            ("partial_sendfile_count"@, self.partial_sendfile_count),
            ("bytes_sent"@, self.bytes_sent),
            ("bytes_received"@, self.bytes_received),
        ]
    }

    /// Sets each of the counters.
    pub fn insert_all(self, output: &mut TransportStats)
        requires
            old(output).wf(),
        ensures
            final(output).wf(),
            final(output).map() == stats::with_entries(old(output).map(), self.entries()),
    {
        let mut entries: Vec<(String, u64)> = Vec::new();
        entries.push(("parent_read_calls".to_owned(), self.parent_read_calls));
        entries.push(("parent_write_calls".to_owned(), self.parent_write_calls));
        entries.push(("child_read_calls".to_owned(), self.child_read_calls));
        entries.push(("partial_write_count".to_owned(), self.partial_write_count));
        entries.push(("sendfile_calls".to_owned(), self.sendfile_calls));
        entries.push(("partial_sendfile_count".to_owned(), self.partial_sendfile_count));
        entries.push(("bytes_sent".to_owned(), self.bytes_sent));
        entries.push(("bytes_received".to_owned(), self.bytes_received));
        assert(stats::entry_views(entries@) =~= self.entries());
        insert_entries(output, &entries);
    }
}

/// Sets the counters that describe the socket.
pub fn insert_socket_stats(output: &mut TransportStats, address_family: u64)
    requires
        old(output).wf(),
    ensures
        final(output).wf(),
        final(output).map() == stats::with_entries(
            old(output).map(),
            socket_entries(address_family),
        ),
{
    let mut entries: Vec<(String, u64)> = Vec::new();
    entries.push(("tcp_nodelay".to_owned(), 1));
    entries.push(("blocking_socket".to_owned(), 1));
    entries.push(("socket_buffer_explicit".to_owned(), 0));
    entries.push(("connection_reuse".to_owned(), 0));
    entries.push(("address_family".to_owned(), address_family));
    assert(stats::entry_views(entries@) =~= socket_entries(address_family));
    insert_entries(output, &entries);
}

/// The number that stands for an address family in the counters.
pub fn socket_family(is_ipv4: bool) -> (family: u64)
    ensures
        family == if is_ipv4 {
            4
        } else {
            6int
        },
{
    if is_ipv4 {
        4
    } else {
        6
    }
}

/// Counts one read call.
pub fn count_read(calls: u64) -> (counted: Result<u64>)
    ensures
        match counted {
            Ok(counted) => counted == calls + 1,
            Err(error) => {
                &&& calls == u64::MAX
                &&& error@ == ErrorView::InvalidConfiguration("TCP read call counter overflow"@)
            },
        },
{
    match calls.checked_add(1) {
        Some(counted) => Ok(counted),
        None => Err(invalid("TCP read call counter overflow")),
    }
}

/// What one write call gave.
pub enum WriteOutcome {
    /// The number of bytes that were taken.
    Wrote(usize),
    /// The call was interrupted before it moved any byte.
    Interrupted,
    /// The call failed, with the system's message.
    Failed(String),
}

impl TcpTransportStats {
    /// The counters after one write call with `offered` bytes, how many bytes are done with, and why
    /// the transfer fails, if it fails.
    pub open spec fn after_write(self, offered: nat, outcome: WriteOutcome) -> (
        Self,
        core::result::Result<nat, ErrorView>,
    ) {
        let called = TcpTransportStats {
            parent_write_calls: (self.parent_write_calls + 1) as u64,
            ..self
        };
        if self.parent_write_calls == u64::MAX {
            (self, Err(ErrorView::InvalidConfiguration("TCP write call counter overflow"@)))
        } else {
            match outcome {
                WriteOutcome::Wrote(written) => if written == 0 {
                    (
                        called,
                        Err(
                            ErrorView::Io {
                                operation: "write TCP benchmark bytes"@,
                                message: "write returned zero"@,
                            },
                        ),
                    )
                } else if written < offered && self.partial_write_count == u64::MAX {
                    (
                        called,
                        Err(ErrorView::InvalidConfiguration("partial write counter overflow"@)),
                    )
                } else {
                    let noted = if written < offered {
                        TcpTransportStats {
                            partial_write_count: (self.partial_write_count + 1) as u64,
                            ..called
                        }
                    } else {
                        called
                    };
                    if self.bytes_sent + written > u64::MAX {
                        (
                            noted,
                            Err(ErrorView::InvalidConfiguration("TCP sent byte counter overflow"@)),
                        )
                    } else {
                        (
                            TcpTransportStats {
                                bytes_sent: (self.bytes_sent + written) as u64,
                                ..noted
                            },
                            Ok(written as nat),
                        )
                    }
                },
                WriteOutcome::Interrupted => (called, Ok(0)),
                WriteOutcome::Failed(message) => (
                    called,
                    Err(
                        ErrorView::Io {
                            operation: "write TCP benchmark bytes"@,
                            message: message@,
                        },
                    ),
                ),
            }
        }
    }

    /// Counts one write call with `offered` bytes, and says how many bytes are done with.
    pub fn note_write(&mut self, offered: usize, outcome: WriteOutcome) -> (done: Result<usize>)
        ensures
            ({
                let after = old(self).after_write(offered as nat, outcome);
                &&& *final(self) == after.0
                &&& match done {
                    Ok(done) => after.1 == Ok::<nat, ErrorView>(done as nat),
                    Err(error) => after.1 == Err::<nat, ErrorView>(error@),
                }
            }),
    {
        match self.parent_write_calls.checked_add(1) {
            Some(calls) => {
                self.parent_write_calls = calls;
            },
            None => {
                return Err(invalid("TCP write call counter overflow"));
            },
        }
        match outcome {
            WriteOutcome::Wrote(written) => {
                if written == 0 {
                    return Err(
                        Error::Io {
                            operation: "write TCP benchmark bytes",
                            message: "write returned zero".to_owned(),
                        },
                    );
                }
                if written < offered {
                    match self.partial_write_count.checked_add(1) {
                        Some(count) => {
                            self.partial_write_count = count;
                        },
                        None => {
                            return Err(invalid("partial write counter overflow"));
                        },
                    }
                }
                match self.bytes_sent.checked_add(written as u64) {
                    Some(sent) => {
                        self.bytes_sent = sent;
                        Ok(written)
                    },
                    None => Err(invalid("TCP sent byte counter overflow")),
                }
            },
            WriteOutcome::Interrupted => Ok(0),
            WriteOutcome::Failed(message) => Err(
                Error::Io { operation: "write TCP benchmark bytes", message },
            ),
        }
    }
}

/// What one `sendfile` call gave.
pub enum SendfileOutcome {
    /// The number of bytes sent; none at the end of the file.
    Sent(usize),
    /// The call is to be made again.
    Again,
    /// The call failed, with the system's message.
    Failed(String),
}

/// How many bytes the next call moves at most: what is left, in steps of at most `limit` bytes.
pub open spec fn step_of(remaining: u64, limit: nat) -> nat {
    if remaining <= limit {
        remaining as nat
    } else {
        limit
    }
}

/// How many bytes the next `sendfile` call asks for.
pub fn sendfile_count(remaining: u64) -> (count: usize)
    ensures
        count == step_of(remaining, 0x7fff_f000),
{
    if remaining <= MAX_SENDFILE_COUNT {
        remaining as usize
    } else {
        0x7fff_f000
    }
}

impl TcpTransportStats {
    /// The counters after one `sendfile` call for `count` bytes, how many bytes were sent, and why the
    /// transfer fails, if it fails.
    pub open spec fn after_sendfile(self, count: nat, outcome: SendfileOutcome) -> (
        Self,
        core::result::Result<nat, ErrorView>,
    ) {
        let called = TcpTransportStats { sendfile_calls: (self.sendfile_calls + 1) as u64, ..self };
        if self.sendfile_calls == u64::MAX {
            (self, Err(ErrorView::InvalidConfiguration("sendfile call counter overflow"@)))
        } else {
            match outcome {
                SendfileOutcome::Sent(sent) => if sent == 0 {
                    (
                        called,
                        Err(ErrorView::Protocol("sendfile reached EOF before configured length"@)),
                    )
                } else if sent < count && self.partial_sendfile_count == u64::MAX {
                    (
                        called,
                        Err(ErrorView::InvalidConfiguration("partial sendfile counter overflow"@)),
                    )
                } else {
                    let noted = if sent < count {
                        TcpTransportStats {
                            partial_sendfile_count: (self.partial_sendfile_count + 1) as u64,
                            ..called
                        }
                    } else {
                        called
                    };
                    if self.bytes_sent + sent > u64::MAX {
                        (
                            noted,
                            Err(ErrorView::InvalidConfiguration("TCP sent byte counter overflow"@)),
                        )
                    } else {
                        (
                            TcpTransportStats {
                                bytes_sent: (self.bytes_sent + sent) as u64,
                                ..noted
                            },
                            Ok(sent as nat),
                        )
                    }
                },
                SendfileOutcome::Again => (called, Ok(0)),
                SendfileOutcome::Failed(message) => (
                    called,
                    Err(
                        ErrorView::Io {
                            operation: "sendfile TCP benchmark bytes"@,
                            message: message@,
                        },
                    ),
                ),
            }
        }
    }

    /// Counts one `sendfile` call for `count` bytes, and says how many bytes were sent.
    pub fn note_sendfile(&mut self, count: usize, outcome: SendfileOutcome) -> (done: Result<usize>)
        ensures
            ({
                let after = old(self).after_sendfile(count as nat, outcome);
                &&& *final(self) == after.0
                &&& match done {
                    Ok(done) => after.1 == Ok::<nat, ErrorView>(done as nat),
                    Err(error) => after.1 == Err::<nat, ErrorView>(error@),
                }
            }),
    {
        match self.sendfile_calls.checked_add(1) {
            Some(calls) => {
                self.sendfile_calls = calls;
            },
            None => {
                return Err(invalid("sendfile call counter overflow"));
            },
        }
        match outcome {
            SendfileOutcome::Sent(sent) => {
                if sent == 0 {
                    return Err(protocol("sendfile reached EOF before configured length"));
                }
                if sent < count {
                    match self.partial_sendfile_count.checked_add(1) {
                        Some(count) => {
                            self.partial_sendfile_count = count;
                        },
                        None => {
                            return Err(invalid("partial sendfile counter overflow"));
                        },
                    }
                }
                match self.bytes_sent.checked_add(sent as u64) {
                    Some(total) => {
                        self.bytes_sent = total;
                        Ok(sent)
                    },
                    None => Err(invalid("TCP sent byte counter overflow")),
                }
            },
            SendfileOutcome::Again => Ok(0),
            SendfileOutcome::Failed(message) => Err(
                Error::Io { operation: "sendfile TCP benchmark bytes", message },
            ),
        }
    }
}

/// Where a transfer ends that comes short.
#[derive(Clone, Copy, Debug, Eq, PartialEq, Structural)]
pub enum TransferEnd {
    /// The file that is sent.
    Source,
    /// The stream that is received.
    Stream,
}

/// A payload that is read piece by piece: from the source on the parent, from the stream on the
/// child.
#[derive(Debug, Eq, PartialEq)]
pub struct ExactTransfer {
    pub remaining: u64,
    pub chunk_size: usize,
    pub read_calls: u64,
    pub end: TransferEnd,
}

impl ExactTransfer {
    /// A transfer of `length` bytes in pieces of at most `chunk_size`.
    pub fn new(length: u64, chunk_size: usize, end: TransferEnd) -> (transfer: Self)
        ensures
            transfer == (ExactTransfer { remaining: length, chunk_size, read_calls: 0, end }),
    {
        ExactTransfer { remaining: length, chunk_size, read_calls: 0, end }
    }

    /// How many bytes the next read asks for; none once all were read.
    pub fn next(&self) -> (amount: Option<usize>)
        ensures
            amount == if self.remaining == 0 {
                None
            } else {
                Some(step_of(self.remaining, self.chunk_size as nat) as usize)
            },
    {
        if self.remaining == 0 {
            return None;
        }
        if self.remaining <= self.chunk_size as u64 {
            Some(self.remaining as usize)
        } else {
            Some(self.chunk_size)
        }
    }

    /// The transfer after one read, how many bytes it gave, and why the transfer fails, if it fails.
    pub open spec fn after(self, outcome: ReadOutcome<'_>) -> (
        Self,
        core::result::Result<nat, ErrorView>,
    ) {
        let called = ExactTransfer { read_calls: (self.read_calls + 1) as u64, ..self };
        if self.read_calls == u64::MAX {
            (self, Err(ErrorView::InvalidConfiguration("TCP read call counter overflow"@)))
        } else {
            match outcome {
                ReadOutcome::Bytes(bytes) => if bytes@.len() == 0 {
                    (
                        called,
                        Err(
                            match self.end {
                                TransferEnd::Source => ErrorView::Protocol(
                                    "benchmark source reached EOF before configured length"@,
                                ),
                                TransferEnd::Stream => ErrorView::Protocol(
                                    "TCP payload ended with "@ + text::decimal(
                                        self.remaining as nat,
                                    ) + " bytes remaining"@,
                                ),
                            },
                        ),
                    )
                } else {
                    (
                        ExactTransfer {
                            remaining: (self.remaining - bytes@.len()) as u64,
                            ..called
                        },
                        Ok(bytes@.len()),
                    )
                },
                ReadOutcome::Interrupted => (called, Ok(0)),
                ReadOutcome::Failed(message) => (
                    called,
                    Err(
                        ErrorView::Io {
                            operation: "read TCP benchmark bytes"@,
                            message: message@,
                        },
                    ),
                ),
            }
        }
    }

    /// Takes in what one read gave, and says how many bytes that is.
    pub fn observe(&mut self, outcome: &ReadOutcome<'_>) -> (taken: Result<usize>)
        requires
            outcome matches ReadOutcome::Bytes(bytes) ==> bytes@.len() <= old(self).remaining,
        ensures
            *final(self) == old(self).after(*outcome).0,
            match taken {
                Ok(taken) => old(self).after(*outcome).1 == Ok::<nat, ErrorView>(taken as nat),
                Err(error) => old(self).after(*outcome).1 == Err::<nat, ErrorView>(error@),
            },
    {
        match count_read(self.read_calls) {
            Ok(calls) => {
                self.read_calls = calls;
            },
            Err(error) => {
                return Err(error);
            },
        }
        match outcome {
            ReadOutcome::Bytes(bytes) => {
                if bytes.len() == 0 {
                    return Err(
                        match self.end {
                            TransferEnd::Source => protocol(
                                "benchmark source reached EOF before configured length",
                            ),
                            TransferEnd::Stream => Error::Protocol(
                                with_number(
                                    "TCP payload ended with ",
                                    self.remaining,
                                    " bytes remaining",
                                ),
                            ),
                        },
                    );
                }
                self.remaining = self.remaining - bytes.len() as u64;
                Ok(bytes.len())
            },
            ReadOutcome::Interrupted => Ok(0),
            ReadOutcome::Failed(message) => Err(
                Error::Io {
                    operation: "read TCP benchmark bytes",
                    message: message.as_str().to_owned(),
                },
            ),
        }
    }
}

/// A payload on its way into memory.
pub struct MemoryReceive {
    transfer: ExactTransfer,
    sink: MemorySink,
    bytes_received: u64,
}

impl MemoryReceive {
    /// The reads that are left.
    pub closed spec fn reads(self) -> ExactTransfer {
        self.transfer
    }

    /// The bytes received.
    pub closed spec fn taken(self) -> Seq<u8> {
        self.sink.taken()
    }

    /// The length and the checksum that the sink expects.
    pub closed spec fn expected(self) -> (u64, u32) {
        self.sink.expected()
    }

    /// The bytes received are counted, and with those that are left fit a `u64`.
    pub closed spec fn wf(self) -> bool {
        &&& self.sink.wf()
        &&& self.bytes_received == self.sink.taken().len()
        &&& self.bytes_received + self.transfer.remaining <= u64::MAX
    }

    /// A transfer of `expected_bytes` bytes into an empty sink.
    pub fn new(sink: MemorySink, expected_bytes: u64, chunk_size: usize) -> (receive: Self)
        requires
            sink.wf(),
            sink.taken().len() == 0,
        ensures
            receive.wf(),
            receive.taken() == Seq::<u8>::empty(),
            receive.expected() == sink.expected(),
            receive.reads() == (ExactTransfer {
                remaining: expected_bytes,
                chunk_size,
                read_calls: 0,
                end: TransferEnd::Stream,
            }),
    {
        assert(sink.taken() =~= Seq::<u8>::empty());
        MemoryReceive {
            transfer: ExactTransfer::new(expected_bytes, chunk_size, TransferEnd::Stream),
            sink,
            bytes_received: 0,
        }
    }

    /// How many bytes the next read asks for; none once all were read.
    pub fn next(&self) -> (amount: Option<usize>)
        ensures
            amount == if self.reads().remaining == 0 {
                None
            } else {
                Some(step_of(self.reads().remaining, self.reads().chunk_size as nat) as usize)
            },
    {
        self.transfer.next()
    }

    /// Takes in what one read gave.
    pub fn observe(&mut self, outcome: ReadOutcome<'_>) -> (taken: Result<()>)
        requires
            old(self).wf(),
            outcome matches ReadOutcome::Bytes(bytes) ==> bytes@.len() <= old(self).reads().remaining,
        ensures
            final(self).wf(),
            final(self).reads() == old(self).reads().after(outcome).0,
            final(self).expected() == old(self).expected(),
            match taken {
                Ok(()) => {
                    &&& old(self).reads().after(outcome).1 is Ok
                    &&& final(self).taken() == match outcome {
                        ReadOutcome::Bytes(bytes) => old(self).taken() + bytes@,
                        _ => old(self).taken(),
                    }
                },
                Err(error) => {
                    &&& old(self).reads().after(outcome).1 == Err::<nat, ErrorView>(error@)
                    &&& final(self).taken() == old(self).taken()
                },
            },
    {
        match self.transfer.observe(&outcome) {
            Ok(_) => {},
            Err(error) => {
                return Err(error);
            },
        }
        match outcome {
            ReadOutcome::Bytes(bytes) => {
                self.bytes_received = self.bytes_received + bytes.len() as u64;
                self.sink.write_chunk(bytes)
            },
            _ => Ok(()),
        }
    }

    /// What came of the transfer, and how many reads and bytes it took.
    pub fn finish(self) -> (finished: (IntegrityResult, u64, u64))
        requires
            self.wf(),
        ensures
            finished.0 == IntegrityResult::judged(
                self.expected().0,
                self.taken().len() as u64,
                self.expected().1,
                digest::crc32(self.taken()),
            ),
            finished.1 == self.reads().read_calls,
            finished.2 == self.taken().len(),
    {
        let calls: u64 = self.transfer.read_calls;
        let received: u64 = self.bytes_received;
        match self.sink.finish() {
            Ok(integrity) => (integrity, calls, received),
            Err(_) => {
                assert(false);
                (IntegrityResult::new(0, 0, 0, 0), calls, received)
            },
        }
    }
}

/// Whether a Request asks for the parent's case.
pub fn check_request(requested: &BenchmarkCase, case: &BenchmarkCase) -> (checked: Result<()>)
    ensures
        match checked {
            Ok(()) => requested@ == case@,
            Err(error) => {
                &&& requested@ != case@
                &&& error@ == ErrorView::Protocol(
                    "TCP Request does not match Parent benchmark case"@,
                )
            },
        },
{
    let same = same_text(requested.case_id.as_str(), case.case_id.as_str()) && requested.repeat
        == case.repeat && requested.scenario == case.scenario && requested.transport
        == case.transport && requested.transfer_bytes == case.transfer_bytes && requested.chunk_size
        == case.chunk_size && requested.window == case.window && requested.timing_mode
        == case.timing_mode && requested.completion_policy == case.completion_policy
        && requested.data_seed == case.data_seed;
    if !same {
        return Err(protocol("TCP Request does not match Parent benchmark case"));
    }
    Ok(())
}

/// What a parent announces of its source.
pub fn source_metadata(case: &BenchmarkCase, source: &TcpBenchmarkSource) -> (metadata:
    MetadataMessage)
    requires
        source matches TcpBenchmarkSource::Memory(source) ==> source.wf(),
    ensures
        metadata.case_id@ == case.case_id@,
        metadata.scenario == case.scenario,
        metadata.expected_bytes == source.bytes(),
        metadata.expected_crc32 == match source {
            TcpBenchmarkSource::Memory(source) => digest::crc32(source@),
            TcpBenchmarkSource::File(source) => source.expected_crc32,
        },
{
    MetadataMessage {
        case_id: case.case_id.as_str().to_owned(),
        scenario: case.scenario,
        expected_bytes: source.length(),
        expected_crc32: source.expected_crc32(),
    }
}

/// Whether metadata are those of the case that was asked for.
pub fn check_metadata(metadata: &MetadataMessage, case: &BenchmarkCase) -> (checked: Result<()>)
    ensures
        ({
            let fits = metadata.case_id@ == case.case_id@ && metadata.expected_bytes
                == case.transfer_bytes && metadata.scenario == case.scenario;
            match checked {
                Ok(()) => fits,
                Err(error) => {
                    &&& !fits
                    &&& error@ == ErrorView::Protocol(
                        "TCP Metadata does not match requested benchmark case"@,
                    )
                },
            }
        }),
{
    if !same_text(metadata.case_id.as_str(), case.case_id.as_str()) || metadata.expected_bytes
        != case.transfer_bytes || metadata.scenario != case.scenario {
        return Err(protocol("TCP Metadata does not match requested benchmark case"));
    }
    Ok(())
}

/// Whether a child's report says that everything announced has arrived.
pub open spec fn done_fits(
    case_id: Seq<char>,
    metadata: MetadataView,
    done: TcpDoneView,
) -> bool {
    &&& done.case_id == case_id
    &&& done.integrity.expected_bytes == metadata.expected_bytes
    &&& done.integrity.actual_bytes == metadata.expected_bytes
    &&& done.integrity.expected_crc32 == metadata.expected_crc32
    &&& done.integrity.actual_crc32 == metadata.expected_crc32
    &&& done.integrity.length_ok && done.integrity.digest_ok
    &&& done.bytes_received == metadata.expected_bytes
}

/// Checks that everything announced has arrived.
pub fn validate_done(case: &BenchmarkCase, metadata: &MetadataMessage, done: &DoneMessage) -> (valid:
    Result<()>)
    ensures
        match valid {
            Ok(()) => done_fits(case.case_id@, metadata@, done@),
            Err(error) => {
                &&& !done_fits(case.case_id@, metadata@, done@)
                &&& error@ == ErrorView::Protocol(
                    "Child Done failed TCP length/CRC32/result validation"@,
                )
            },
        },
{
    if !same_text(done.case_id.as_str(), case.case_id.as_str()) || done.integrity.expected_bytes
        != metadata.expected_bytes || done.integrity.actual_bytes != metadata.expected_bytes
        || done.integrity.expected_crc32 != metadata.expected_crc32 || done.integrity.actual_crc32
        != metadata.expected_crc32 || !done.integrity.is_ok() || done.bytes_received
        != metadata.expected_bytes {
        return Err(protocol("Child Done failed TCP length/CRC32/result validation"));
    }
    Ok(())
}

/// Completes a child's result, and gives the report that the parent gets.
pub fn complete_child(
    result: &mut BenchmarkResult,
    child_cpu: CpuUsage,
    counters: TcpTransportStats,
    address_family: u64,
) -> (done: DoneMessage)
    requires
        old(result).transport_stats.wf(),
        old(result).transport_stats.map() == Map::<Seq<char>, u64>::empty(),
    ensures
        final(result).transport_stats.wf(),
        final(result).transport_stats.map() == stats::with_entries(
            stats::with_entries(Map::empty(), counters.entries()),
            socket_entries(address_family),
        ),
        *final(result) == (BenchmarkResult {
            child_cpu: Some(child_cpu),
            transport_stats: final(result).transport_stats,
            ..*old(result)
        }),
        done@ == (TcpDoneView {
            case_id: old(result).case_id@,
            integrity: old(result).integrity,
            elapsed_ns: old(result).elapsed_ns,
            child_cpu,
            child_read_calls: counters.child_read_calls,
            bytes_received: counters.bytes_received,
        }),
{
    result.child_cpu = Some(child_cpu);
    counters.insert_all(&mut result.transport_stats);
    insert_socket_stats(&mut result.transport_stats, address_family);
    DoneMessage {
        case_id: result.case_id.as_str().to_owned(),
        integrity: result.integrity,
        elapsed_ns: result.elapsed_ns,
        child_cpu,
        child_read_calls: counters.child_read_calls,
        bytes_received: counters.bytes_received,
    }
}

/// Completes a parent's result.
pub fn complete_parent(
    result: &mut BenchmarkResult,
    parent_cpu: CpuUsage,
    done: &DoneMessage,
    counters: TcpTransportStats,
    elapsed_ns: u64,
    address_family: u64,
)
    requires
        old(result).transport_stats.wf(),
        old(result).transport_stats.map() == Map::<Seq<char>, u64>::empty(),
    ensures
        final(result).transport_stats.wf(),
        ({
            let both = TcpTransportStats {
                child_read_calls: done.child_read_calls,
                bytes_received: done.bytes_received,
                ..counters
            };
            final(result).transport_stats.map() == stats::with_entries(
                stats::with_entries(Map::empty(), both.entries()).insert(
                    "parent_elapsed_ns"@,
                    elapsed_ns,
                ),
                socket_entries(address_family),
            )
        }),
        *final(result) == (BenchmarkResult {
            parent_cpu: Some(parent_cpu),
            child_cpu: Some(done.child_cpu),
            transport_stats: final(result).transport_stats,
            ..*old(result)
        }),
{
    result.parent_cpu = Some(parent_cpu);
    result.child_cpu = Some(done.child_cpu);
    let both = TcpTransportStats {
        child_read_calls: done.child_read_calls,
        bytes_received: done.bytes_received,
        ..counters
    };
    both.insert_all(&mut result.transport_stats);
    result.transport_stats.insert("parent_elapsed_ns", elapsed_ns);
    insert_socket_stats(&mut result.transport_stats, address_family);
}

/// Processor time in microseconds, from seconds and microseconds.
pub fn timeval_us(seconds: i64, micros: i64) -> (time: Result<u64>)
    ensures
        match time {
            Ok(time) => {
                &&& seconds >= 0 && micros >= 0
                &&& time == seconds * 1_000_000 + micros
            },
            Err(error) => if seconds < 0 {
                error@ == ErrorView::InvalidConfiguration("process CPU seconds are negative"@)
            } else if micros < 0 {
                error@ == ErrorView::InvalidConfiguration("process CPU microseconds are negative"@)
            } else {
                &&& seconds * 1_000_000 + micros > u64::MAX
                &&& error@ == ErrorView::InvalidConfiguration("process CPU time overflow"@)
            },
        },
{
    if seconds < 0 {
        return Err(invalid("process CPU seconds are negative"));
    }
    if micros < 0 {
        return Err(invalid("process CPU microseconds are negative"));
    }
    match (seconds as u64).checked_mul(1_000_000) {
        Some(time) => match time.checked_add(micros as u64) {
            Some(time) => Ok(time),
            None => Err(invalid("process CPU time overflow")),
        },
        None => Err(invalid("process CPU time overflow")),
    }
}

} // verus!
