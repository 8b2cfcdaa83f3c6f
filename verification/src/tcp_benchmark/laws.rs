//! What a run over TCP keeps to: how its bytes are counted, and where its control fields stand.

use vstd::prelude::*;

use super::wire;
use super::wire::{FrameType, MetadataView, TcpDoneView};
use super::{
    done_fits, step_of, tcp_case_error, ExactTransfer, ReadOutcome, SendfileOutcome,
    TcpBenchmarkSource, TcpTransportStats, WriteOutcome,
};
use crate::benchmark::{
    BenchmarkCase, BenchmarkScenario, BenchmarkTransport, CaseView, FileCompletionPolicy, TimingMode,
};
use crate::bytes;
use crate::text;

verus! {

/// A case runs over TCP exactly where it is valid and its transport is one of the two TCP ones.
pub proof fn cases_run_over_tcp_exactly_when(case: BenchmarkCase)
    ensures
        tcp_case_error(case) is None <==> case.error() is None && (case.transport
            == BenchmarkTransport::TcpUserspace || case.transport == BenchmarkTransport::TcpSendfile),
{
}

/// A source is a case's exactly where it is of its scenario and has its length.
pub proof fn sources_fit_exactly_when(source: TcpBenchmarkSource, case: BenchmarkCase)
    ensures
        source.case_error(case) is None <==> source.scenario() == case.scenario && source.bytes()
            == case.transfer_bytes,
{
}

/// A step of a transfer moves all that is left, or as much as one call may.
pub proof fn steps_are_bounded(remaining: u64, limit: nat)
    ensures
        step_of(remaining, limit) <= remaining,
        step_of(remaining, limit) <= limit,
        step_of(remaining, limit) == remaining || step_of(remaining, limit) == limit,
{
}

/// A write counts as one call and for the bytes that it took; it is partial where it took fewer than it
/// was offered; one that took none fails, and one that was interrupted is made again.
pub proof fn writes_are_counted(stats: TcpTransportStats, offered: nat, outcome: WriteOutcome)
    requires
        stats.parent_write_calls < u64::MAX,
        stats.partial_write_count < u64::MAX,
        outcome matches WriteOutcome::Wrote(written) ==> stats.bytes_sent + written <= u64::MAX,
    ensures
        ({
            let (after, moved) = stats.after_write(offered, outcome);
            &&& after.parent_write_calls == stats.parent_write_calls + 1
            &&& after.parent_read_calls == stats.parent_read_calls
            &&& after.child_read_calls == stats.child_read_calls
            &&& after.sendfile_calls == stats.sendfile_calls
            &&& after.bytes_received == stats.bytes_received
            &&& match outcome {
                WriteOutcome::Wrote(written) => {
                    &&& moved is Ok <==> written > 0
                    &&& moved matches Ok(count) ==> count == written
                    &&& after.bytes_sent == stats.bytes_sent + written
                    &&& after.partial_write_count == stats.partial_write_count + if 0 < written
                        && written < offered {
                        1int
                    } else {
                        0int
                    }
                },
                WriteOutcome::Interrupted => {
                    &&& moved matches Ok(count) && count == 0
                    &&& after.bytes_sent == stats.bytes_sent
                    &&& after.partial_write_count == stats.partial_write_count
                },
                WriteOutcome::Failed(_) => {
                    &&& moved is Err
                    &&& after.bytes_sent == stats.bytes_sent
                },
            }
        }),
{
}

/// A `sendfile` call counts as one call and for the bytes that it sent; it is partial where it sent
/// fewer than it was asked to; one that sent none has met the end too early and fails.
pub proof fn sendfile_calls_are_counted(
    stats: TcpTransportStats,
    count: nat,
    outcome: SendfileOutcome,
)
    requires
        stats.sendfile_calls < u64::MAX,
        stats.partial_sendfile_count < u64::MAX,
        outcome matches SendfileOutcome::Sent(sent) ==> stats.bytes_sent + sent <= u64::MAX,
    ensures
        ({
            let (after, moved) = stats.after_sendfile(count, outcome);
            &&& after.sendfile_calls == stats.sendfile_calls + 1
            &&& after.parent_read_calls == stats.parent_read_calls
            &&& after.parent_write_calls == stats.parent_write_calls
            &&& after.partial_write_count == stats.partial_write_count
            &&& after.bytes_received == stats.bytes_received
            &&& match outcome {
                SendfileOutcome::Sent(sent) => {
                    &&& moved is Ok <==> sent > 0
                    &&& moved matches Ok(done) ==> done == sent
                    &&& after.bytes_sent == stats.bytes_sent + sent
                    &&& after.partial_sendfile_count == stats.partial_sendfile_count + if 0 < sent
                        && sent < count {
                        1int
                    } else {
                        0int
                    }
                },
                SendfileOutcome::Again => {
                    &&& moved matches Ok(done) && done == 0
                    &&& after.bytes_sent == stats.bytes_sent
                    &&& after.partial_sendfile_count == stats.partial_sendfile_count
                },
                SendfileOutcome::Failed(_) => moved is Err && after.bytes_sent == stats.bytes_sent,
            }
        }),
{
}

/// A read counts as one call and takes its bytes off what is left; one that gives none has met the end
/// too early and fails, and one that was interrupted is made again.
pub proof fn reads_are_counted(transfer: ExactTransfer, outcome: ReadOutcome<'_>)
    requires
        transfer.read_calls < u64::MAX,
        outcome matches ReadOutcome::Bytes(bytes) ==> bytes@.len() <= transfer.remaining,
    ensures
        ({
            let (after, moved) = transfer.after(outcome);
            &&& after.read_calls == transfer.read_calls + 1
            &&& after.chunk_size == transfer.chunk_size
            &&& match outcome {
                ReadOutcome::Bytes(bytes) => {
                    &&& moved is Ok <==> bytes@.len() > 0
                    &&& moved matches Ok(count) ==> count == bytes@.len()
                    &&& after.remaining + bytes@.len() == transfer.remaining
                },
                ReadOutcome::Interrupted => (moved matches Ok(count) && count == 0)
                    && after.remaining == transfer.remaining,
                ReadOutcome::Failed(_) => moved is Err && after.remaining == transfer.remaining,
            }
        }),
{
}

/// Each counter of a run stands under its own name.
pub proof fn tcp_counters_are_named(stats: TcpTransportStats, address_family: u64)
    ensures
        ({
            let entries = stats.entries();
            &&& entries.len() == 8
            &&& entries.contains(("parent_read_calls"@, stats.parent_read_calls))
            &&& entries.contains(("parent_write_calls"@, stats.parent_write_calls))
            &&& entries.contains(("child_read_calls"@, stats.child_read_calls))
            &&& entries.contains(("partial_write_count"@, stats.partial_write_count))
            &&& entries.contains(("sendfile_calls"@, stats.sendfile_calls))
            &&& entries.contains(("partial_sendfile_count"@, stats.partial_sendfile_count))
            &&& entries.contains(("bytes_sent"@, stats.bytes_sent))
            &&& entries.contains(("bytes_received"@, stats.bytes_received))
        }),
        ({
            let entries = super::socket_entries(address_family);
            &&& entries.len() == 5
            &&& entries.contains(("tcp_nodelay"@, 1u64))
            &&& entries.contains(("blocking_socket"@, 1u64))
            &&& entries.contains(("socket_buffer_explicit"@, 0u64))
            &&& entries.contains(("connection_reuse"@, 0u64))
            &&& entries.contains(("address_family"@, address_family))
        }),
{
    let entries = stats.entries();
    assert(entries[0].0 == "parent_read_calls"@ && entries[1].0 == "parent_write_calls"@);
    assert(entries[2].0 == "child_read_calls"@ && entries[3].0 == "partial_write_count"@);
    assert(entries[4].0 == "sendfile_calls"@ && entries[5].0 == "partial_sendfile_count"@);
    assert(entries[6].0 == "bytes_sent"@ && entries[7].0 == "bytes_received"@);
    let socket = super::socket_entries(address_family);
    assert(socket[0].0 == "tcp_nodelay"@ && socket[1].0 == "blocking_socket"@);
    assert(socket[2].0 == "socket_buffer_explicit"@ && socket[3].0 == "connection_reuse"@);
    assert(socket[4].0 == "address_family"@);
}

/// A child's report is taken exactly where it is on the case and says that what was announced is what
/// arrived: all of its bytes, with its checksum.
pub proof fn reports_fit_exactly_when(
    case_id: Seq<char>,
    metadata: MetadataView,
    done: TcpDoneView,
)
    ensures
        done_fits(case_id, metadata, done) <==> {
            &&& done.case_id == case_id
            &&& done.bytes_received == metadata.expected_bytes
            &&& done.integrity.expected_bytes == metadata.expected_bytes
            &&& done.integrity.actual_bytes == metadata.expected_bytes
            &&& done.integrity.expected_crc32 == metadata.expected_crc32
            &&& done.integrity.actual_crc32 == metadata.expected_crc32
            &&& done.integrity.length_ok
            &&& done.integrity.digest_ok
        },
{
}

/// A control frame has its magic, its version, its kind and its length at fixed places, and then what
/// it carries.
pub proof fn tcp_frames_are_laid_out(kind: FrameType, payload: Seq<u8>)
    requires
        payload.len() <= u32::MAX,
    ensures
        ({
            let wire = wire::frame_wire(kind, payload);
            &&& wire.len() == 12 + payload.len()
            &&& bytes::be_value(wire.subrange(0, 4)) == 0x4254_4350
            &&& bytes::be_value(wire.subrange(4, 6)) == 1
            &&& bytes::be_value(wire.subrange(6, 8)) == match kind {
                FrameType::Request => 1nat,
                FrameType::Metadata => 2nat,
                FrameType::Ready => 3nat,
                FrameType::Start => 4nat,
                FrameType::Done => 5nat,
                FrameType::Error => 6nat,
            }
            &&& bytes::be_value(wire.subrange(8, 12)) == payload.len()
            &&& wire.skip(12) == payload
        }),
{
    let wire = wire::frame_wire(kind, payload);
    bytes::lemma_be_bounds();
    bytes::lemma_be(0x4254_4350, 4);
    bytes::lemma_be(1, 2);
    bytes::lemma_be(kind.number() as nat, 2);
    bytes::lemma_be(payload.len(), 4);
    assert(wire.subrange(0, 4) =~= bytes::be(0x4254_4350, 4));
    assert(wire.subrange(4, 6) =~= bytes::be(1, 2));
    assert(wire.subrange(6, 8) =~= bytes::be(kind.number() as nat, 2));
    assert(wire.subrange(8, 12) =~= bytes::be(payload.len(), 4));
    assert(wire.skip(12) =~= payload);
}

/// A frame is taken exactly where it is of the kind that is waited for, which is never an error.
pub proof fn frames_are_taken_exactly_when(kind: FrameType, payload: Seq<u8>, expected: FrameType)
    ensures
        wire::frame_error(kind, payload, expected) is None <==> kind == expected && kind
            != FrameType::Error,
{
}

/// A request has the case's name first, after its length, and then each of its values at its own place.
pub proof fn requests_are_laid_out(case: CaseView)
    requires
        text::utf8(case.case_id).len() <= u16::MAX,
    ensures
        ({
            let wire = wire::case_wire(case);
            let at = 2 + text::utf8(case.case_id).len() as int;
            &&& wire.len() == at + 36
            &&& bytes::be_value(wire.subrange(0, 2)) == at - 2
            &&& wire.subrange(2, at) == text::utf8(case.case_id)
            &&& bytes::be_value(wire.subrange(at, at + 4)) == case.repeat
            &&& wire[at + 4] == match case.scenario {
                BenchmarkScenario::Memory => 1u8,
                BenchmarkScenario::File => 2u8,
            }
            &&& wire[at + 5] == match case.transport {
                BenchmarkTransport::TcpUserspace => 1u8,
                BenchmarkTransport::TcpSendfile => 2u8,
                BenchmarkTransport::Urma => 3u8,
            }
            &&& wire[at + 6] == match case.timing_mode {
                TimingMode::SteadyState => 1u8,
                TimingMode::SetupIncluded => 2u8,
            }
            &&& wire[at + 7] == match case.completion_policy {
                FileCompletionPolicy::Buffered => 1u8,
                FileCompletionPolicy::Durable => 2u8,
            }
            &&& bytes::be_value(wire.subrange(at + 8, at + 16)) == case.transfer_bytes
            &&& bytes::be_value(wire.subrange(at + 16, at + 24)) == case.chunk_size
            &&& bytes::be_value(wire.subrange(at + 24, at + 28)) == case.window
            &&& bytes::be_value(wire.subrange(at + 28, at + 36)) == case.data_seed
        }),
{
    let wire = wire::case_wire(case);
    let at = 2 + text::utf8(case.case_id).len() as int;
    bytes::lemma_be_bounds();
    bytes::lemma_be(text::utf8(case.case_id).len(), 2);
    bytes::lemma_be(case.repeat as nat, 4);
    bytes::lemma_be(case.transfer_bytes as nat, 8);
    bytes::lemma_be(case.chunk_size as nat, 8);
    bytes::lemma_be(case.window as nat, 4);
    bytes::lemma_be(case.data_seed as nat, 8);
    assert(wire.subrange(0, 2) =~= bytes::be(text::utf8(case.case_id).len(), 2));
    assert(wire.subrange(2, at) =~= text::utf8(case.case_id));
    assert(wire.subrange(at, at + 4) =~= bytes::be(case.repeat as nat, 4));
    assert(wire.subrange(at + 8, at + 16) =~= bytes::be(case.transfer_bytes as nat, 8));
    assert(wire.subrange(at + 16, at + 24) =~= bytes::be(case.chunk_size as nat, 8));
    assert(wire.subrange(at + 24, at + 28) =~= bytes::be(case.window as nat, 4));
    assert(wire.subrange(at + 28, at + 36) =~= bytes::be(case.data_seed as nat, 8));
}

/// Metadata have the case's name first, after its length, and then each of their values at its own
/// place.
pub proof fn metadata_are_laid_out(metadata: MetadataView)
    requires
        text::utf8(metadata.case_id).len() <= u16::MAX,
    ensures
        ({
            let wire = wire::metadata_wire(metadata);
            let at = 2 + text::utf8(metadata.case_id).len() as int;
            &&& wire.len() == at + 13
            &&& wire.subrange(2, at) == text::utf8(metadata.case_id)
            &&& wire[at] == match metadata.scenario {
                BenchmarkScenario::Memory => 1u8,
                BenchmarkScenario::File => 2u8,
            }
            &&& bytes::be_value(wire.subrange(at + 1, at + 9)) == metadata.expected_bytes
            &&& bytes::be_value(wire.subrange(at + 9, at + 13)) == metadata.expected_crc32
        }),
{
    bytes::lemma_be_bounds();
    let first = wire::metadata_wire(metadata);
    let from = 2 + text::utf8(metadata.case_id).len() as int;
    bytes::lemma_be(text::utf8(metadata.case_id).len(), 2);
    bytes::lemma_be(metadata.expected_bytes as nat, 8);
    bytes::lemma_be(metadata.expected_crc32 as nat, 4);
    assert(first.subrange(2, from) =~= text::utf8(metadata.case_id));
    assert(first.subrange(from + 1, from + 9) =~= bytes::be(metadata.expected_bytes as nat, 8));
    assert(first.subrange(from + 9, from + 13) =~= bytes::be(metadata.expected_crc32 as nat, 4));
}

/// A report has the case's name first, after its length, and then each of its values at its own place.
#[verifier::spinoff_prover]
#[verifier::rlimit(60)]
pub proof fn reports_are_laid_out(done: TcpDoneView)
    requires
        text::utf8(done.case_id).len() <= u16::MAX,
    ensures
        ({
            let wire = wire::done_wire(done);
            let at = 2 + text::utf8(done.case_id).len() as int;
            &&& wire.len() == at + 66
            &&& wire.subrange(2, at) == text::utf8(done.case_id)
            &&& bytes::be_value(wire.subrange(at, at + 8)) == done.integrity.expected_bytes
            &&& bytes::be_value(wire.subrange(at + 8, at + 16)) == done.integrity.actual_bytes
            &&& bytes::be_value(wire.subrange(at + 16, at + 20)) == done.integrity.expected_crc32
            &&& bytes::be_value(wire.subrange(at + 20, at + 24)) == done.integrity.actual_crc32
            &&& wire[at + 24] == if done.integrity.length_ok { 1u8 } else { 0u8 }
            &&& wire[at + 25] == if done.integrity.digest_ok { 1u8 } else { 0u8 }
            &&& bytes::be_value(wire.subrange(at + 26, at + 34)) == done.elapsed_ns
            &&& bytes::be_value(wire.subrange(at + 34, at + 42)) == done.child_cpu.user_us
            &&& bytes::be_value(wire.subrange(at + 42, at + 50)) == done.child_cpu.system_us
            &&& bytes::be_value(wire.subrange(at + 50, at + 58)) == done.child_read_calls
            &&& bytes::be_value(wire.subrange(at + 58, at + 66)) == done.bytes_received
        }),
{
    bytes::lemma_be_bounds();
    let wire = wire::done_wire(done);
    let at = 2 + text::utf8(done.case_id).len() as int;
    bytes::lemma_be(text::utf8(done.case_id).len(), 2);
    bytes::lemma_be(done.integrity.expected_bytes as nat, 8);
    bytes::lemma_be(done.integrity.actual_bytes as nat, 8);
    bytes::lemma_be(done.integrity.expected_crc32 as nat, 4);
    bytes::lemma_be(done.integrity.actual_crc32 as nat, 4);
    bytes::lemma_be(done.elapsed_ns as nat, 8);
    bytes::lemma_be(done.child_cpu.user_us as nat, 8);
    bytes::lemma_be(done.child_cpu.system_us as nat, 8);
    bytes::lemma_be(done.child_read_calls as nat, 8);
    bytes::lemma_be(done.bytes_received as nat, 8);
    assert(wire.subrange(2, at) =~= text::utf8(done.case_id));
    assert(wire.subrange(at, at + 8) =~= bytes::be(done.integrity.expected_bytes as nat, 8));
    assert(wire.subrange(at + 8, at + 16) =~= bytes::be(done.integrity.actual_bytes as nat, 8));
    assert(wire.subrange(at + 16, at + 20) =~= bytes::be(done.integrity.expected_crc32 as nat, 4));
    assert(wire.subrange(at + 20, at + 24) =~= bytes::be(done.integrity.actual_crc32 as nat, 4));
    assert(wire.subrange(at + 26, at + 34) =~= bytes::be(done.elapsed_ns as nat, 8));
    assert(wire.subrange(at + 34, at + 42) =~= bytes::be(done.child_cpu.user_us as nat, 8));
    assert(wire.subrange(at + 42, at + 50) =~= bytes::be(done.child_cpu.system_us as nat, 8));
    assert(wire.subrange(at + 50, at + 58) =~= bytes::be(done.child_read_calls as nat, 8));
    assert(wire.subrange(at + 58, at + 66) =~= bytes::be(done.bytes_received as nat, 8));
}

proof fn lemma_number(input: Seq<u8>, at: int, width: int)
    requires
        0 <= at,
        0 <= width,
        at + width <= input.len(),
    ensures
        bytes::be(bytes::be_value(input.subrange(at, at + width)), width as nat) == input.subrange(
            at,
            at + width,
        ),
        bytes::be_value(input.subrange(at, at + width)) < bytes::be_bound(width as nat),
{
    bytes::lemma_be_of_value(input.subrange(at, at + width));
}

proof fn lemma_text(input: Seq<u8>)
    requires
        wire::text_at(input, 0) is Ok,
    ensures
        ({
            let (value, next) = wire::text_at(input, 0)->Ok_0;
            &&& next == 2 + text::utf8(value).len()
            &&& 2 <= next <= input.len()
            &&& input.take(next) == wire::text_wire(value)
        }),
{
    let (value, next) = wire::text_at(input, 0)->Ok_0;
    lemma_number(input, 0, 2);
    let length = bytes::be_value(input.subrange(0, 2)) as int;
    let encoded = input.subrange(2, 2 + length);
    vstd::utf8::decode_utf8_encode_utf8(encoded);
    text::lemma_utf8_properties(value);
    assert(text::utf8(value) == encoded);
    assert(input.take(next) =~= input.subrange(0, 2) + encoded);
}

/// Metadata are read only where they are what would be written: nothing is left over, nothing is
/// missing, and no two payloads are read alike.
pub proof fn metadata_are_read_only_as_written(input: Seq<u8>)
    requires
        wire::metadata_parse(input) is Ok,
    ensures
        wire::metadata_wire(wire::metadata_parse(input)->Ok_0) == input,
{
    let metadata = wire::metadata_parse(input)->Ok_0;
    lemma_text(input);
    bytes::lemma_be_bounds();
    let at = wire::text_at(input, 0)->Ok_0.1;
    lemma_number(input, at + 1, 8);
    lemma_number(input, at + 9, 4);
    assert(input =~= input.take(at) + input.subrange(at, at + 1) + input.subrange(at + 1, at + 9)
        + input.subrange(at + 9, at + 13));
    assert(input.subrange(at, at + 1) =~= seq![wire::scenario_byte(metadata.scenario)]);
}

/// A request is read only where it is what would be written.
pub proof fn requests_are_read_only_as_written(input: Seq<u8>)
    requires
        wire::case_parse(input) is Ok,
    ensures
        wire::case_wire(wire::case_parse(input)->Ok_0) == input,
        wire::case_parse(input)->Ok_0.error() is None,
{
    let case = wire::case_parse(input)->Ok_0;
    lemma_text(input);
    bytes::lemma_be_bounds();
    let at = wire::text_at(input, 0)->Ok_0.1;
    lemma_number(input, at, 4);
    lemma_number(input, at + 8, 8);
    lemma_number(input, at + 16, 8);
    lemma_number(input, at + 24, 4);
    lemma_number(input, at + 28, 8);
    let kinds = seq![
        wire::scenario_byte(case.scenario),
        wire::transport_byte(case.transport),
        wire::timing_byte(case.timing_mode),
        wire::completion_byte(case.completion_policy),
    ];
    assert(input.subrange(at + 4, at + 8) =~= kinds) by {
        assert(input.subrange(at + 4, at + 5)[0] == input[at + 4]);
        assert(input.subrange(at + 5, at + 6)[0] == input[at + 5]);
        assert(input.subrange(at + 6, at + 7)[0] == input[at + 6]);
        assert(input.subrange(at + 7, at + 8)[0] == input[at + 7]);
    }
    assert(input =~= input.take(at) + input.subrange(at, at + 4) + input.subrange(at + 4, at + 8)
        + input.subrange(at + 8, at + 16) + input.subrange(at + 16, at + 24) + input.subrange(
        at + 24,
        at + 28,
    ) + input.subrange(at + 28, at + 36));
}

/// A report is read only where it is what would be written.
pub proof fn reports_are_read_only_as_written(input: Seq<u8>)
    requires
        wire::done_parse(input) is Ok,
    ensures
        wire::done_wire(wire::done_parse(input)->Ok_0) == input,
{
    let done = wire::done_parse(input)->Ok_0;
    lemma_text(input);
    bytes::lemma_be_bounds();
    let at = wire::text_at(input, 0)->Ok_0.1;
    lemma_number(input, at, 8);
    lemma_number(input, at + 8, 8);
    lemma_number(input, at + 16, 4);
    lemma_number(input, at + 20, 4);
    lemma_number(input, at + 26, 8);
    lemma_number(input, at + 34, 8);
    lemma_number(input, at + 42, 8);
    lemma_number(input, at + 50, 8);
    lemma_number(input, at + 58, 8);
    let flags = seq![
        wire::bool_byte(done.integrity.length_ok),
        wire::bool_byte(done.integrity.digest_ok),
    ];
    assert(input.subrange(at + 24, at + 26) =~= flags) by {
        assert(input.subrange(at + 24, at + 25)[0] == input[at + 24]);
        assert(input.subrange(at + 25, at + 26)[0] == input[at + 25]);
    }
    assert(input =~= input.take(at) + input.subrange(at, at + 8) + input.subrange(at + 8, at + 16)
        + input.subrange(at + 16, at + 20) + input.subrange(at + 20, at + 24) + input.subrange(
        at + 24,
        at + 26,
    ) + input.subrange(at + 26, at + 34) + input.subrange(at + 34, at + 42) + input.subrange(
        at + 42,
        at + 50,
    ) + input.subrange(at + 50, at + 58) + input.subrange(at + 58, at + 66));
}

} // verus!
