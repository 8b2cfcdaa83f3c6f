use urma_transport_lab::benchmark::payload::FileGenerator;
use urma_transport_lab::benchmark::stats::TransportStats;
use urma_transport_lab::{
    crc32_bytes, BenchmarkCase, BenchmarkResult, BenchmarkScenario, BenchmarkSink, BenchmarkTimer,
    BenchmarkTransport, CpuUsage, Error, FileCompletionPolicy, FileSink, FileSource,
    IntegrityResult, MemorySink, MemorySource, TimingMode, TimingSample,
};

const SECOND: u128 = 1_000_000_000;

fn valid_case() -> BenchmarkCase {
    BenchmarkCase::new(
        "b0-case-1",
        1,
        BenchmarkScenario::Memory,
        BenchmarkTransport::TcpUserspace,
        1024,
        256,
        1,
        TimingMode::SteadyState,
        FileCompletionPolicy::Buffered,
        7,
    )
    .unwrap()
}

fn throughput_mib_s(bytes: u64, elapsed_ns: u128) -> f64 {
    if bytes == 0 || elapsed_ns == 0 {
        return 0.0;
    }
    bytes as f64 / (1024.0 * 1024.0) / (elapsed_ns as f64 / 1e9)
}

#[test]
fn validates_case_and_rejects_invalid_combinations() {
    assert_eq!(valid_case().chunk_count(), Ok(4));
    assert_eq!(
        BenchmarkCase::new(
            "zero",
            1,
            BenchmarkScenario::Memory,
            BenchmarkTransport::Urma,
            0,
            64,
            1,
            TimingMode::SetupIncluded,
            FileCompletionPolicy::Buffered,
            0,
        )
        .unwrap()
        .chunk_count(),
        Ok(0)
    );

    let mut invalid_case = valid_case();
    invalid_case.chunk_size = 0;
    assert!(invalid_case.validate().is_err());
    invalid_case = valid_case();
    invalid_case.window = 0;
    assert!(invalid_case.validate().is_err());
    invalid_case = valid_case();
    invalid_case.repeat = 0;
    assert!(invalid_case.validate().is_err());
    invalid_case = valid_case();
    invalid_case.transport = BenchmarkTransport::TcpSendfile;
    assert!(invalid_case.validate().is_err());
    invalid_case = valid_case();
    invalid_case.completion_policy = FileCompletionPolicy::Durable;
    assert!(invalid_case.validate().is_err());
    invalid_case = valid_case();
    invalid_case.transfer_bytes = u64::MAX;
    assert!(invalid_case.validate().is_err());
}

#[test]
fn chunk_count_avoids_round_up_overflow() {
    let case = BenchmarkCase::new(
        "maximum",
        1,
        BenchmarkScenario::File,
        BenchmarkTransport::TcpUserspace,
        u64::MAX,
        2,
        1,
        TimingMode::SteadyState,
        FileCompletionPolicy::Buffered,
        0,
    )
    .unwrap();
    assert_eq!(case.chunk_count(), Ok(u64::MAX / 2 + 1));
}

#[test]
fn case_json_is_single_line_stable_and_escaped() {
    let mut case = valid_case();
    case.case_id = "case-\"quoted\"".into();
    assert_eq!(
        case.to_json_line(),
        "{\"case_id\":\"case-\\\"quoted\\\"\",\"repeat\":1,\"scenario\":\"memory\",\"transport\":\"tcp-userspace\",\"bytes\":1024,\"chunk_size\":256,\"window\":1,\"timing_mode\":\"steady-state\",\"completion_policy\":\"buffered\",\"data_seed\":7}"
    );
    assert!(!case.to_json_line().contains('\n'));
}

#[test]
fn throughput_and_result_json_are_stable() {
    let sample = TimingSample::from_duration(TimingMode::SteadyState, 2 * SECOND);
    let integrity = IntegrityResult::new(1024 * 1024, 1024 * 1024, 7, 7);
    assert_eq!(throughput_mib_s(1024 * 1024, sample.elapsed), 0.5);
    assert_eq!(throughput_mib_s(0, 0), 0.0);

    let mut case = valid_case();
    case.transfer_bytes = 1024 * 1024;
    let result = BenchmarkResult::from_sample(&case, sample, integrity).unwrap();
    let mib = format!("{:.6}", throughput_mib_s(result.bytes, sample.elapsed));
    let json = result.to_json_line(&mib, "0.004194");
    assert!(json.contains("\"elapsed_ns\":2000000000"));
    assert!(json.contains("\"throughput_mib_s\":0.500000"));
    assert!(json.contains("\"parent_cpu\":null"));
    assert!(json.ends_with("\"transport_stats\":{}}"));
    assert!(!json.contains('\n'));
}

#[test]
fn timer_preserves_explicit_timing_mode() {
    let timer = BenchmarkTimer::start(TimingMode::SetupIncluded, 40);
    assert_eq!(timer.mode(), TimingMode::SetupIncluded);
    let sample = timer.finish(42);
    assert_eq!(sample.mode, TimingMode::SetupIncluded);
    assert!(sample.elapsed_ns().is_ok());
    assert_eq!(sample.elapsed_ns(), Ok(2));
}

#[test]
fn elapsed_time_beyond_the_counter_is_refused() {
    let sample = TimingSample::from_duration(TimingMode::SteadyState, u64::MAX as u128 + 1);
    assert!(sample.elapsed_ns().is_err());
}

#[test]
fn deterministic_memory_payload_and_crc32_are_reproducible() {
    let first = MemorySource::generate(1025, 42).unwrap();
    let second = MemorySource::generate(1025, 42).unwrap();
    let different = MemorySource::generate(1025, 43).unwrap();
    assert_eq!(first.bytes(), second.bytes());
    assert_ne!(first.bytes(), different.bytes());
    assert_eq!(first.expected_crc32(), crc32_bytes(first.bytes()));

    let mut sink = MemorySink::new(first.length(), first.expected_crc32());
    for chunk in first.chunks(17).unwrap() {
        sink.write_chunk(chunk).unwrap();
    }
    assert!(sink.finish().unwrap().is_ok());
}

#[test]
fn zero_length_memory_payload_is_consumed_and_checked() {
    let source = MemorySource::generate(0, 42).unwrap();
    let sink = MemorySink::new(source.length(), source.expected_crc32());
    let result = sink.finish().unwrap();
    assert!(result.is_ok());
    assert_eq!(result.actual_crc32, 0);
}

#[test]
fn memory_source_reports_impossible_allocation() {
    assert!(MemorySource::generate(u64::MAX, 0).is_err());
}

#[test]
fn generated_file_streams_through_buffered_and_durable_sinks() {
    let mut generator = FileGenerator::new(65_537, 99, 4096).unwrap();
    let mut source_bytes: Vec<u8> = Vec::new();
    loop {
        let chunk = generator.next_chunk();
        if chunk.is_empty() {
            break;
        }
        assert!(chunk.len() <= 4096);
        source_bytes.extend_from_slice(&chunk);
    }
    let source = generator.finish("source".to_string());
    assert_eq!(source.path(), "source");
    let (crc32, length) = urma_transport_lab::crc32_reader(&source_bytes).unwrap();
    let reopened = FileSource {
        path: "source".to_string(),
        length,
        expected_crc32: crc32,
    };
    assert_eq!(source, reopened);
    let memory = MemorySource::generate(source.length(), 99).unwrap();
    assert_eq!(source_bytes.as_slice(), memory.bytes());

    for policy in [
        FileCompletionPolicy::Buffered,
        FileCompletionPolicy::Durable,
    ] {
        assert!(FileSink::check_capacity(1024).is_ok());
        let mut sink = FileSink::create(
            source.length(),
            source.expected_crc32(),
            policy,
            Ok(()),
        )
        .unwrap();
        let mut written: Vec<u8> = Vec::new();
        for piece in source_bytes.chunks(777) {
            written.extend_from_slice(piece);
            sink.write_chunk(piece, Ok(())).unwrap();
        }
        assert_eq!(sink.needs_sync(), policy == FileCompletionPolicy::Durable);
        assert!(sink.finish(Ok(()), Ok(())).unwrap().is_ok());
        assert_eq!(written.len() as u64, source.length());
    }
}

#[test]
fn zero_length_file_works_for_both_completion_policies() {
    for policy in [
        FileCompletionPolicy::Buffered,
        FileCompletionPolicy::Durable,
    ] {
        let sink = FileSink::create(0, 0, policy, Ok(())).unwrap();
        let finished = sink.finish(Ok(()), Ok(())).unwrap();
        assert!(finished.is_ok());
        assert_eq!(finished.actual_bytes, 0);
    }
}

#[test]
fn sink_reports_length_and_digest_mismatch() {
    let mut sink = MemorySink::new(4, crc32_bytes(b"good"));
    sink.write_chunk(b"bad").unwrap();
    let result = sink.finish().unwrap();
    assert!(!result.length_ok);
    assert!(!result.digest_ok);
    assert!(!result.is_ok());
}

#[test]
fn result_rejects_integrity_for_a_different_case_size() {
    let case = valid_case();
    let sample = TimingSample::from_duration(TimingMode::SteadyState, SECOND);
    let integrity = IntegrityResult::new(1, 1, 0, 0);
    assert!(BenchmarkResult::from_sample(&case, sample, integrity).is_err());
}

#[test]
fn file_sink_reports_what_the_system_refused() {
    let refused = FileSink::create(4, 0, FileCompletionPolicy::Buffered, Err("denied".to_string()));
    assert!(matches!(refused, Err(Error::Io { .. })));

    let mut sink = FileSink::create(4, 0, FileCompletionPolicy::Durable, Ok(())).unwrap();
    assert!(sink.write_chunk(b"abcd", Err("disk full".to_string())).is_err());

    let sink = FileSink::create(0, 0, FileCompletionPolicy::Durable, Ok(())).unwrap();
    assert!(sink.finish(Ok(()), Err("sync".to_string())).is_err());
    let sink = FileSink::create(0, 0, FileCompletionPolicy::Buffered, Ok(())).unwrap();
    assert!(sink.finish(Err("flush".to_string()), Ok(())).is_err());
    assert!(FileSink::check_capacity(0).is_err());
}

#[test]
fn zero_chunk_sizes_are_refused() {
    let source = MemorySource::generate(16, 1).unwrap();
    assert!(source.chunks(0).is_err());
    assert!(FileGenerator::new(16, 1, 0).is_err());
}

#[test]
fn names_round_trip_and_unknown_names_are_refused() {
    for scenario in [BenchmarkScenario::Memory, BenchmarkScenario::File] {
        assert_eq!(BenchmarkScenario::from_str(scenario.as_str()), Ok(scenario));
    }
    for transport in [
        BenchmarkTransport::TcpUserspace,
        BenchmarkTransport::TcpSendfile,
        BenchmarkTransport::Urma,
    ] {
        assert_eq!(BenchmarkTransport::from_str(transport.as_str()), Ok(transport));
    }
    for mode in [TimingMode::SteadyState, TimingMode::SetupIncluded] {
        assert_eq!(TimingMode::from_str(mode.as_str()), Ok(mode));
    }
    for policy in [FileCompletionPolicy::Buffered, FileCompletionPolicy::Durable] {
        assert_eq!(FileCompletionPolicy::from_str(policy.as_str()), Ok(policy));
    }
    let error = BenchmarkScenario::from_str("a\"b").unwrap_err();
    assert!(error.to_string().contains("\"a\\\"b\""), "{}", error.to_string());
    assert!(BenchmarkTransport::from_str("tcp").is_err());
    assert!(TimingMode::from_str("").is_err());
    assert!(FileCompletionPolicy::from_str("Durable").is_err());
}

#[test]
fn transport_stats_keep_names_in_order_and_replace_values() {
    let mut stats = TransportStats::new();
    stats.insert("zeta", 1);
    stats.insert("alpha", 2);
    stats.insert("zeta", 3);
    assert_eq!(stats.len(), 2);
    assert_eq!(stats.get("zeta"), Some(3));
    assert_eq!(stats.get("missing"), None);
    assert_eq!(stats.json(), "{\"alpha\":2,\"zeta\":3}");
}

#[test]
fn result_json_names_the_processor_time_of_both_sides() {
    let sample = TimingSample::from_duration(TimingMode::SteadyState, SECOND);
    let mut result =
        BenchmarkResult::from_sample(&valid_case(), sample, IntegrityResult::new(1024, 1024, 7, 8))
            .unwrap();
    result.parent_cpu = Some(CpuUsage {
        user_us: 11,
        system_us: 12,
    });
    result.transport_stats.insert("bytes_sent", 1024);
    assert_eq!(result.elapsed_us, 1_000_000);
    let json = result.to_json_line("0.000977", "0.000008");
    assert!(json.contains("\"parent_cpu\":{\"user_us\":11,\"system_us\":12}"), "{json}");
    assert!(json.contains("\"digest_ok\":false"), "{json}");
    assert!(json.ends_with("\"transport_stats\":{\"bytes_sent\":1024}}"), "{json}");
}

#[test]
fn case_lines_tell_cases_apart_on_one_line() {
    let case = valid_case();
    let line = case.to_json_line();
    assert_eq!(
        line,
        "{\"case_id\":\"b0-case-1\",\"repeat\":1,\"scenario\":\"memory\",\
         \"transport\":\"tcp-userspace\",\"bytes\":1024,\"chunk_size\":256,\"window\":1,\
         \"timing_mode\":\"steady-state\",\"completion_policy\":\"buffered\",\"data_seed\":7}"
    );
    let mut other = case.clone();
    other.data_seed = 70;
    assert_ne!(other.to_json_line(), line);
    let mut quoted = case.clone();
    quoted.case_id = "b0-case-1\",\"repeat\":1".to_string();
    assert_ne!(quoted.to_json_line(), line);
    let mut broken = case;
    broken.case_id = "a\nb\u{7f}\u{85}".to_string();
    assert!(!broken.to_json_line().chars().any(char::is_control));
}

#[test]
fn an_empty_memory_source_needs_no_room() {
    let source = MemorySource::generate(0, 9).unwrap();
    assert!(source.bytes().is_empty());
    assert_eq!(source.expected_crc32(), crc32_bytes(b""));
}
