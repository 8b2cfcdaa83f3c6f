use urma_transport_lab::benchmark::payload::FileGenerator;
use urma_transport_lab::digest::ReadOutcome;
use urma_transport_lab::tcp_benchmark::wire::{
    decode_case, decode_done, decode_metadata, decode_string_payload, encode_case, encode_done,
    encode_frame, encode_metadata, encode_string_payload, expect_case_identity, expect_frame,
    parse_header, DoneMessage, FrameType, MetadataMessage, CONTROL_HEADER_LEN, CONTROL_MAGIC,
    CONTROL_VERSION, MAX_CONTROL_PAYLOAD,
};
use urma_transport_lab::tcp_benchmark::{
    check_metadata, check_request, complete_child, complete_parent, sendfile_count, socket_family,
    source_metadata, timeval_us, validate_done, validate_tcp_case, ExactTransfer, MemoryReceive,
    SendfileOutcome, TransferEnd, WriteOutcome, MAX_SENDFILE_COUNT,
};
use urma_transport_lab::{
    crc32_bytes, BenchmarkCase, BenchmarkResult, BenchmarkScenario, BenchmarkSink,
    BenchmarkTransport, CpuUsage, Error, FileCompletionPolicy, FileSink, FileSource,
    IntegrityResult, MemorySink, MemorySource, Result, TcpBenchmarkDestination,
    TcpBenchmarkSource, TcpTransportStats, TimingMode, TimingSample,
};

fn case(
    scenario: BenchmarkScenario,
    transport: BenchmarkTransport,
    bytes: u64,
    chunk: u64,
    timing: TimingMode,
    policy: FileCompletionPolicy,
) -> BenchmarkCase {
    BenchmarkCase::new(
        "b1-test", 1, scenario, transport, bytes, chunk, 1, timing, policy, 42,
    )
    .unwrap()
}

/// Writes everything, at most `max` bytes at a time.
fn counted_write_all(output: &mut Vec<u8>, max: usize, bytes: &[u8], stats: &mut TcpTransportStats) {
    let mut offset = 0usize;
    while offset < bytes.len() {
        let offered = bytes.len() - offset;
        let amount = offered.min(max);
        output.extend_from_slice(&bytes[offset..offset + amount]);
        offset += stats.note_write(offered, WriteOutcome::Wrote(amount)).unwrap();
    }
}

/// Receives `expected` bytes from `input`, at most `max` bytes at a time.
fn receive_exact(
    input: &[u8],
    max: usize,
    sink: MemorySink,
    expected: u64,
    chunk_size: usize,
    stats: &mut TcpTransportStats,
) -> Result<IntegrityResult> {
    let mut receive = MemoryReceive::new(sink, expected, chunk_size);
    let mut position = 0usize;
    while let Some(amount) = receive.next() {
        let amount = amount.min(max).min(input.len() - position);
        let outcome = ReadOutcome::Bytes(&input[position..position + amount]);
        position += amount;
        receive.observe(outcome)?;
    }
    let (integrity, calls, bytes) = receive.finish();
    stats.child_read_calls = calls;
    stats.bytes_received = bytes;
    Ok(integrity)
}

/// Runs both sides of a case on bytes that are all there.
fn run_pair(
    case: &BenchmarkCase,
    source: &TcpBenchmarkSource,
    payload: &[u8],
    destination: &TcpBenchmarkDestination,
) -> (BenchmarkResult, BenchmarkResult, Vec<u8>) {
    validate_tcp_case(case).unwrap();
    source.validate(case).unwrap();
    destination.validate(case).unwrap();
    let requested = decode_case(&encode_case(case).unwrap()).unwrap();
    check_request(&requested, case).unwrap();
    let metadata =
        decode_metadata(&encode_metadata(&source_metadata(case, source)).unwrap()).unwrap();
    check_metadata(&metadata, case).unwrap();

    let chunk = case.chunk_size_usize().unwrap();
    let mut parent_stats = TcpTransportStats::default();
    let mut wire = Vec::new();
    match source {
        TcpBenchmarkSource::Memory(memory) => {
            for piece in memory.chunks(chunk).unwrap() {
                counted_write_all(&mut wire, 1000, piece, &mut parent_stats);
            }
        }
        TcpBenchmarkSource::File(_) if case.transport == BenchmarkTransport::TcpSendfile => {
            let mut remaining = payload.len() as u64;
            while remaining > 0 {
                let count = sendfile_count(remaining);
                let sent = count.min(5000);
                let start = payload.len() - remaining as usize;
                wire.extend_from_slice(&payload[start..start + sent]);
                let done = parent_stats
                    .note_sendfile(count, SendfileOutcome::Sent(sent))
                    .unwrap();
                remaining -= done as u64;
            }
        }
        TcpBenchmarkSource::File(_) => {
            let mut transfer =
                ExactTransfer::new(payload.len() as u64, chunk, TransferEnd::Source);
            let mut position = 0usize;
            while let Some(amount) = transfer.next() {
                let piece = &payload[position..position + amount];
                position += transfer.observe(&ReadOutcome::Bytes(piece)).unwrap();
                counted_write_all(&mut wire, 1000, piece, &mut parent_stats);
            }
            parent_stats.parent_read_calls = transfer.read_calls;
        }
    }

    let mut child_stats = TcpTransportStats::default();
    let mut output = Vec::new();
    let integrity = match destination {
        TcpBenchmarkDestination::Memory => receive_exact(
            &wire,
            usize::MAX,
            MemorySink::new(metadata.expected_bytes, metadata.expected_crc32),
            metadata.expected_bytes,
            chunk,
            &mut child_stats,
        )
        .unwrap(),
        _ => {
            let mut sink = FileSink::create(
                metadata.expected_bytes,
                metadata.expected_crc32,
                case.completion_policy,
                Ok(()),
            )
            .unwrap();
            let mut transfer =
                ExactTransfer::new(metadata.expected_bytes, chunk, TransferEnd::Stream);
            let mut position = 0usize;
            while let Some(amount) = transfer.next() {
                let piece = &wire[position..position + amount];
                position += transfer.observe(&ReadOutcome::Bytes(piece)).unwrap();
                output.extend_from_slice(piece);
                sink.write_chunk(piece, Ok(())).unwrap();
            }
            child_stats.child_read_calls = transfer.read_calls;
            child_stats.bytes_received = position as u64;
            sink.finish(Ok(()), Ok(())).unwrap()
        }
    };
    let sample = TimingSample::from_duration(case.timing_mode, 5_000);
    let mut child = BenchmarkResult::from_sample(case, sample, integrity).unwrap();
    let done = complete_child(&mut child, CpuUsage::default(), child_stats, socket_family(true));
    let done = decode_done(&encode_done(&done).unwrap()).unwrap();
    validate_done(case, &metadata, &done).unwrap();
    let mut parent = BenchmarkResult::from_sample(
        case,
        TimingSample::from_duration(case.timing_mode, done.elapsed_ns as u128),
        done.integrity,
    )
    .unwrap();
    complete_parent(
        &mut parent,
        CpuUsage::default(),
        &done,
        parent_stats,
        4_000,
        socket_family(true),
    );
    (parent, child, output)
}

fn generated(length: u64, seed: u64) -> (FileSource, Vec<u8>) {
    let mut generator = FileGenerator::new(length, seed, 1024).unwrap();
    let mut bytes = Vec::new();
    loop {
        let chunk = generator.next_chunk();
        if chunk.is_empty() {
            break;
        }
        bytes.extend_from_slice(&chunk);
    }
    (generator.finish("input".to_string()), bytes)
}

fn decode_frame(frame: &[u8]) -> Result<(FrameType, Vec<u8>)> {
    let (kind, length) = parse_header(&frame[..CONTROL_HEADER_LEN])?;
    let payload = frame[CONTROL_HEADER_LEN..].to_vec();
    assert_eq!(payload.len(), length);
    Ok((kind, payload))
}

#[test]
fn control_case_round_trip_and_invalid_frame_rejection() {
    let case = case(
        BenchmarkScenario::Memory,
        BenchmarkTransport::TcpUserspace,
        17,
        8,
        TimingMode::SteadyState,
        FileCompletionPolicy::Buffered,
    );
    assert_eq!(decode_case(&encode_case(&case).unwrap()).unwrap(), case);

    let mut frame = encode_frame(FrameType::Ready, b"ok").unwrap();
    assert_eq!(decode_frame(&frame), Ok((FrameType::Ready, b"ok".to_vec())));
    frame[0] ^= 0xff;
    assert!(decode_frame(&frame).is_err());

    let mut oversized = Vec::new();
    oversized.extend_from_slice(&CONTROL_MAGIC.to_be_bytes());
    oversized.extend_from_slice(&CONTROL_VERSION.to_be_bytes());
    oversized.extend_from_slice(&FrameType::Ready.wire_value().to_be_bytes());
    oversized.extend_from_slice(&((MAX_CONTROL_PAYLOAD + 1) as u32).to_be_bytes());
    assert!(decode_frame(&oversized).is_err());
}

#[test]
fn partial_read_and_write_helpers_count_actual_calls() {
    let mut written = Vec::new();
    let mut stats = TcpTransportStats::default();
    counted_write_all(&mut written, 3, b"abcdefgh", &mut stats);
    assert_eq!(written, b"abcdefgh");
    assert_eq!(stats.parent_write_calls, 3);
    assert_eq!(stats.partial_write_count, 2);
    assert_eq!(stats.bytes_sent, 8);

    let payload = b"non-multiple".to_vec();
    let sink = MemorySink::new(payload.len() as u64, crc32_bytes(&payload));
    let mut stats = TcpTransportStats::default();
    let result =
        receive_exact(&payload, 2, sink, payload.len() as u64, 5, &mut stats).unwrap();
    assert!(result.is_ok());
    assert!(stats.child_read_calls > 1);
    assert_eq!(stats.bytes_received, payload.len() as u64);
}

#[test]
fn receive_reports_crc_length_and_premature_eof_failures() {
    let mut stats = TcpTransportStats::default();
    let mismatch = receive_exact(
        b"bad",
        usize::MAX,
        MemorySink::new(3, crc32_bytes(b"good")),
        3,
        2,
        &mut stats,
    )
    .unwrap();
    assert!(mismatch.length_ok);
    assert!(!mismatch.digest_ok);

    let mut stats = TcpTransportStats::default();
    let length = receive_exact(
        b"abc",
        usize::MAX,
        MemorySink::new(4, crc32_bytes(b"abc")),
        3,
        2,
        &mut stats,
    )
    .unwrap();
    assert!(!length.length_ok);
    assert!(length.digest_ok);

    let mut stats = TcpTransportStats::default();
    assert!(receive_exact(
        b"abc",
        usize::MAX,
        MemorySink::new(4, crc32_bytes(b"abcd")),
        4,
        2,
        &mut stats,
    )
    .is_err());
}

#[test]
fn tcp_memory_small_zero_and_non_multiple_transfers() {
    for (bytes, chunk, timing) in [
        (0, 8, TimingMode::SteadyState),
        (17, 8, TimingMode::SteadyState),
        (4097, 511, TimingMode::SetupIncluded),
    ] {
        let case = case(
            BenchmarkScenario::Memory,
            BenchmarkTransport::TcpUserspace,
            bytes,
            chunk,
            timing,
            FileCompletionPolicy::Buffered,
        );
        let source = MemorySource::generate(bytes, case.data_seed).unwrap();
        let (parent, child, _) = run_pair(
            &case,
            &TcpBenchmarkSource::Memory(source),
            &[],
            &TcpBenchmarkDestination::Memory,
        );
        assert!(parent.integrity.is_ok());
        assert!(child.integrity.is_ok());
        assert_eq!(parent.transport_stats.get("bytes_sent"), Some(bytes));
        assert_eq!(parent.transport_stats.get("bytes_received"), Some(bytes));
    }
}

#[test]
fn tcp_userspace_file_supports_buffered_and_durable_sinks() {
    for policy in [
        FileCompletionPolicy::Buffered,
        FileCompletionPolicy::Durable,
    ] {
        let (source, input) = generated(12_345, 42);
        let case = case(
            BenchmarkScenario::File,
            BenchmarkTransport::TcpUserspace,
            source.length(),
            777,
            TimingMode::SteadyState,
            policy,
        );
        let (parent, child, output) = run_pair(
            &case,
            &TcpBenchmarkSource::File(source),
            &input,
            &TcpBenchmarkDestination::File("userspace-output".to_string()),
        );
        assert!(parent.integrity.is_ok());
        assert!(child.integrity.is_ok());
        assert_eq!(input, output);
        assert!(parent.transport_stats.get("parent_read_calls").unwrap() > 0);
        assert_eq!(parent.transport_stats.get("sendfile_calls"), Some(0));
    }
}

#[test]
fn tcp_sendfile_file_transfer_uses_sendfile_stats() {
    let (source, input) = generated(12_345, 42);
    let case = case(
        BenchmarkScenario::File,
        BenchmarkTransport::TcpSendfile,
        source.length(),
        777,
        TimingMode::SteadyState,
        FileCompletionPolicy::Buffered,
    );
    let (parent, child, output) = run_pair(
        &case,
        &TcpBenchmarkSource::File(source),
        &input,
        &TcpBenchmarkDestination::File("sendfile-output".to_string()),
    );
    assert!(parent.integrity.is_ok());
    assert!(child.integrity.is_ok());
    assert_eq!(input, output);
    assert_eq!(parent.transport_stats.get("parent_read_calls"), Some(0));
    assert_eq!(parent.transport_stats.get("parent_write_calls"), Some(0));
    assert!(parent.transport_stats.get("sendfile_calls").unwrap() > 0);
}

#[test]
fn tcp_runner_rejects_sendfile_memory_and_urma() {
    let sendfile_memory = BenchmarkCase {
        transport: BenchmarkTransport::TcpSendfile,
        ..case(
            BenchmarkScenario::Memory,
            BenchmarkTransport::TcpUserspace,
            1,
            1,
            TimingMode::SteadyState,
            FileCompletionPolicy::Buffered,
        )
    };
    assert!(validate_tcp_case(&sendfile_memory).is_err());

    let urma = BenchmarkCase {
        transport: BenchmarkTransport::Urma,
        ..case(
            BenchmarkScenario::Memory,
            BenchmarkTransport::TcpUserspace,
            1,
            1,
            TimingMode::SteadyState,
            FileCompletionPolicy::Buffered,
        )
    };
    assert!(validate_tcp_case(&urma).is_err());
}

#[test]
fn control_messages_round_trip_and_refuse_trailing_bytes() {
    let metadata = MetadataMessage {
        case_id: "meta".to_string(),
        scenario: BenchmarkScenario::File,
        expected_bytes: 7,
        expected_crc32: 8,
    };
    let mut encoded = encode_metadata(&metadata).unwrap();
    assert_eq!(decode_metadata(&encoded), Ok(metadata));
    encoded.push(0);
    assert!(decode_metadata(&encoded).is_err());

    let done = DoneMessage {
        case_id: "done".to_string(),
        integrity: IntegrityResult::new(1, 1, 2, 2),
        elapsed_ns: 3,
        child_cpu: CpuUsage {
            user_us: 4,
            system_us: 5,
        },
        child_read_calls: 6,
        bytes_received: 1,
    };
    let encoded = encode_done(&done).unwrap();
    assert_eq!(decode_done(&encoded), Ok(done));
    assert!(decode_done(&encoded[..encoded.len() - 1]).is_err());

    let text = encode_string_payload("case-1").unwrap();
    assert_eq!(decode_string_payload(&text), Ok("case-1".to_string()));
    assert!(expect_case_identity(&text, "case-1", "mismatch").is_ok());
    assert!(expect_case_identity(&text, "case-2", "mismatch").is_err());
}

#[test]
fn frames_of_another_type_and_reported_errors_are_refused() {
    assert!(expect_frame(FrameType::Ready, b"", FrameType::Ready).is_ok());
    assert!(expect_frame(FrameType::Start, b"", FrameType::Ready).is_err());
    let reported = encode_string_payload("out of space").unwrap();
    let error = expect_frame(FrameType::Error, &reported, FrameType::Ready).unwrap_err();
    assert!(error.to_string().contains("out of space"));
}

#[test]
fn failed_writes_and_sendfiles_are_reported() {
    let mut stats = TcpTransportStats::default();
    assert_eq!(stats.note_write(4, WriteOutcome::Interrupted), Ok(0));
    assert!(stats.note_write(4, WriteOutcome::Wrote(0)).is_err());
    assert!(matches!(
        stats.note_write(4, WriteOutcome::Failed("reset".to_string())),
        Err(Error::Io { .. })
    ));
    assert_eq!(stats.note_sendfile(4, SendfileOutcome::Again), Ok(0));
    assert!(stats.note_sendfile(4, SendfileOutcome::Sent(0)).is_err());
    assert_eq!(sendfile_count(u64::MAX) as u64, MAX_SENDFILE_COUNT);
    assert_eq!(timeval_us(2, 5), Ok(2_000_005));
    assert!(timeval_us(-1, 0).is_err());
}

#[test]
fn sources_and_destinations_fit_their_case() {
    let memory_case = case(
        BenchmarkScenario::Memory,
        BenchmarkTransport::TcpUserspace,
        16,
        8,
        TimingMode::SteadyState,
        FileCompletionPolicy::Buffered,
    );
    let source = TcpBenchmarkSource::Memory(MemorySource::generate(15, 1).unwrap());
    assert!(source.validate(&memory_case).is_err());
    assert!(TcpBenchmarkDestination::File("out".to_string())
        .validate(&memory_case)
        .is_err());
    assert!(TcpBenchmarkDestination::Memory.validate(&memory_case).is_ok());
    let mut sink = MemorySink::new(0, 0);
    assert!(sink.write_chunk(b"").is_ok());
}
