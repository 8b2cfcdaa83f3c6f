use urma_transport_lab::benchmark::payload::FileGenerator;
use urma_transport_lab::file_comparison::{
    validate_b4_result, ThroughputSummary, ThroughputText,
};
use urma_transport_lab::{
    crc32_bytes, derive_urma_slot_size, validate_urma_case, B4CaseStatus, B4ExecutionOutcome,
    B4FileMatrixConfig, B4FileMatrixRunner, B4FileRunRecord, B4Report, B4TransportDispatch,
    BenchmarkCase, BenchmarkResult, BenchmarkScenario, BenchmarkTransport, BufferPoolConfig, Error,
    FileCompletionPolicy, FileSource, IntegrityResult, TimingMode, TimingSample,
    UrmaPipelineLimits,
};

fn generate(length: u64, seed: u64, chunk: usize) -> (FileSource, Vec<u8>) {
    let mut generator = FileGenerator::new(length, seed, chunk).unwrap();
    let mut bytes = Vec::new();
    loop {
        let piece = generator.next_chunk();
        if piece.is_empty() {
            break;
        }
        bytes.extend_from_slice(&piece);
    }
    (generator.finish("input".to_string()), bytes)
}

fn config(bytes: u64, repeats: u32) -> B4FileMatrixConfig {
    B4FileMatrixConfig::new(
        "b4-test",
        "input",
        bytes,
        256 * 1024,
        4,
        repeats,
        TimingMode::SteadyState,
        FileCompletionPolicy::Buffered,
        42,
        vec![
            BenchmarkTransport::TcpUserspace,
            BenchmarkTransport::TcpSendfile,
            BenchmarkTransport::Urma,
        ],
    )
    .unwrap()
}

fn result(case: &BenchmarkCase) -> BenchmarkResult {
    let integrity = IntegrityResult::new(
        case.transfer_bytes,
        case.transfer_bytes,
        crc32_bytes(b"same"),
        crc32_bytes(b"same"),
    );
    let mut result = BenchmarkResult::from_sample(
        case,
        TimingSample::from_duration(case.timing_mode, 10_000_000),
        integrity,
    )
    .unwrap();
    result
        .transport_stats
        .insert("bytes_sent", case.transfer_bytes);
    result
        .transport_stats
        .insert("bytes_received", case.transfer_bytes);
    result.transport_stats.insert("parent_elapsed_ns", 9_000_000);
    match case.transport {
        BenchmarkTransport::TcpUserspace => {
            for name in [
                "parent_read_calls",
                "parent_write_calls",
                "child_read_calls",
                "partial_write_count",
            ] {
                result.transport_stats.insert(name, 1);
            }
        }
        BenchmarkTransport::TcpSendfile => {
            result.transport_stats.insert("sendfile_calls", 1);
            result.transport_stats.insert("partial_sendfile_count", 0);
            result.transport_stats.insert("parent_read_calls", 0);
            result.transport_stats.insert("parent_write_calls", 0);
        }
        BenchmarkTransport::Urma => {
            for (name, value) in [
                ("send_post", 6),
                ("recv_post", 6),
                ("send_cqe", 6),
                ("send_retired", 6),
                ("recv_cqe", 6),
                ("cqe_error", 0),
                ("poll_calls", 3),
                ("empty_polls", 0),
                ("send_jfc_poll_calls", 3),
                ("recv_jfc_poll_calls", 3),
                ("yield_count", 0),
                ("sleep_count", 0),
                ("backoff_sleep_ns", 0),
                ("jfc_rearm_count", 2),
                ("event_wait_count", 1),
                ("event_wakeup_count", 1),
                ("event_timeout_count", 0),
                ("spurious_wakeup_count", 0),
                ("event_wait_ns", 5_000),
                ("max_event_wait_ns", 5_000),
                ("max_empty_streak", 0),
                ("nonempty_polls", 3),
                ("completion_batch_total", 12),
                ("avg_poll_batch_milli", 4_000),
                ("empty_poll_ratio_ppm", 0),
                ("max_completion_poll_gap_ns", 10_000),
                ("max_outstanding_send", u64::from(case.window)),
                ("current_outstanding_send", 0),
                ("current_outstanding_recv", 0),
                ("configured_window", u64::from(case.window)),
                ("configured_receive_credit", u64::from(case.window)),
                ("slot_size", 266_240),
                ("effective_payload_size", case.chunk_size),
                ("tx_slot_count", 8),
                ("rx_slot_count", 8),
                ("total_registered_bytes", 4_259_840),
            ] {
                result.transport_stats.insert(name, value);
            }
        }
    }
    result
}

fn text(throughput: f64) -> ThroughputText {
    ThroughputText {
        mib_s: format!("{throughput:.6}"),
        gbit_s: format!("{:.6}", throughput * 0.008_388_608),
    }
}

/// The middle, the ends and the spread of sorted throughputs.
fn summary(values: &[f64]) -> (ThroughputSummary, [f64; 4]) {
    let count = values.len() as f64;
    let mean = values.iter().sum::<f64>() / count;
    let variance = values.iter().map(|value| (value - mean).powi(2)).sum::<f64>() / count;
    let cv = variance.sqrt() / mean * 100.0;
    let median = values[values.len() / 2];
    let low = values[0];
    let high = values[values.len() - 1];
    (
        ThroughputSummary {
            mib_s_median: format!("{median:.6}"),
            mib_s_min: format!("{low:.6}"),
            mib_s_max: format!("{high:.6}"),
            gbit_s_median: format!("{:.6}", median * 0.008_388_608),
            cv_percent: format!("{cv:.6}"),
            varies: cv > 5.0,
        },
        [median, low, high, cv],
    )
}

#[test]
fn constructs_and_dispatches_three_file_transports() {
    let (source, bytes) = generate(17, 42, 7);
    let runner = B4FileMatrixRunner::prepare(config(17, 2), Ok(source)).unwrap();
    assert_eq!(runner.cases().len(), 6);
    assert_eq!(runner.source().length(), 17);
    assert_eq!(runner.source().expected_crc32(), crc32_bytes(&bytes));
    assert_eq!(
        B4TransportDispatch::for_case(&runner.cases()[0]).unwrap(),
        B4TransportDispatch::TcpUserspace
    );
    assert_eq!(
        B4TransportDispatch::for_case(&runner.cases()[2]).unwrap(),
        B4TransportDispatch::TcpSendfile
    );
    assert_eq!(
        B4TransportDispatch::for_case(&runner.cases()[4]).unwrap(),
        B4TransportDispatch::Urma
    );
}

#[test]
fn reuses_one_file_source_metadata_for_all_repeats() {
    let (source, _) = generate(65_537, 9, 4096);
    let runner = B4FileMatrixRunner::prepare(config(65_537, 2), Ok(source)).unwrap();
    let mut calls = 0;
    let mut outcomes = Vec::new();
    for case in runner.cases() {
        calls += 1;
        assert_eq!(case.transfer_bytes, runner.source().length());
        outcomes.push(if case.transport == BenchmarkTransport::Urma {
            B4ExecutionOutcome::Unsupported("no provider in unit test".into())
        } else {
            B4ExecutionOutcome::Result(result(case))
        });
    }
    let report = runner.run_with(outcomes);
    assert_eq!(calls, 6);
    assert_eq!(report.records.len(), 6);
    assert_eq!(report.aggregates.len(), 3);
    assert_eq!(
        report
            .aggregates
            .iter()
            .find(|value| value.transport == BenchmarkTransport::Urma)
            .unwrap()
            .unsupported_cases,
        2
    );
}

#[test]
fn supports_zero_non_multiple_and_both_completion_policies() {
    for (bytes, policy) in [
        (0, FileCompletionPolicy::Buffered),
        (65_537, FileCompletionPolicy::Durable),
    ] {
        let (source, _) = generate(bytes, 5, 4096);
        let mut candidate = config(bytes, 1);
        candidate.completion_policy = policy;
        let runner = B4FileMatrixRunner::prepare(candidate, Ok(source)).unwrap();
        assert_eq!(runner.source().length(), bytes);
        assert!(runner
            .cases()
            .iter()
            .all(|case| case.completion_policy == policy));
    }
}

#[test]
fn classifies_integrity_failure_and_unsupported_scenario() {
    let case = BenchmarkCase::new(
        "bad",
        1,
        BenchmarkScenario::File,
        BenchmarkTransport::TcpUserspace,
        4,
        3,
        1,
        TimingMode::SteadyState,
        FileCompletionPolicy::Buffered,
        0,
    )
    .unwrap();
    let mut bad = result(&case);
    bad.integrity.actual_crc32 ^= 1;
    bad.integrity.digest_ok = false;
    assert_eq!(
        B4FileRunRecord::success(case, bad).status,
        B4CaseStatus::IntegrityFailure
    );

    let memory = BenchmarkCase::new(
        "memory",
        1,
        BenchmarkScenario::Memory,
        BenchmarkTransport::TcpUserspace,
        0,
        1,
        1,
        TimingMode::SteadyState,
        FileCompletionPolicy::Buffered,
        0,
    )
    .unwrap();
    assert!(B4TransportDispatch::for_case(&memory).is_err());
}

#[test]
fn propagates_urma_chunk_window_and_slot_validation() {
    let (source, _) = generate(600_001, 4, 4096);
    let runner = B4FileMatrixRunner::prepare(config(600_001, 1), Ok(source)).unwrap();
    let case = runner
        .cases()
        .iter()
        .find(|case| case.transport == BenchmarkTransport::Urma)
        .unwrap();
    assert_eq!(case.chunk_size, 256 * 1024);
    assert_eq!(case.window, 4);
    let slot = derive_urma_slot_size(case, 4096).unwrap();
    validate_urma_case(
        case,
        UrmaPipelineLimits {
            slot_size: slot,
            tx_slot_count: 8,
            rx_slot_count: 8,
            send_jfc_depth: 64,
            recv_jfc_depth: 64,
            jetty_send_depth: 64,
            jetty_recv_depth: 64,
            provider_max_message_size: slot as u64,
        },
    )
    .unwrap();
    assert_eq!(BufferPoolConfig::default().tx_slot_count, 128);
    assert_eq!(BufferPoolConfig::default().rx_slot_count, 512);
    assert_eq!(
        B4FileRunRecord::success(case.clone(), result(case)).status,
        B4CaseStatus::Success
    );
}

#[test]
fn aggregates_median_min_max_cv_and_marks_unstable() {
    let cases: Vec<_> = (1..=5)
        .map(|repeat| {
            BenchmarkCase::new(
                "aggregate",
                repeat,
                BenchmarkScenario::File,
                BenchmarkTransport::TcpUserspace,
                1024,
                256,
                1,
                TimingMode::SteadyState,
                FileCompletionPolicy::Buffered,
                0,
            )
            .unwrap()
        })
        .collect();
    let values = [80.0, 90.0, 100.0, 110.0, 120.0];
    let records = cases
        .into_iter()
        .map(|case| {
            let result = result(&case);
            B4FileRunRecord::success(case, result)
        })
        .collect();
    let report = B4Report::from_records(records);
    let aggregate = &report.aggregates[0];
    assert_eq!(aggregate.sample_count, 5);
    let (printed, [median, low, high, cv]) = summary(&values);
    assert_eq!(median, 100.0);
    assert_eq!(low, 80.0);
    assert_eq!(high, 120.0);
    assert!(cv > 5.0);
    assert!(aggregate.unstable(printed.varies));
    let line = aggregate.to_json_line(&printed);
    assert!(line.contains("100.000000"), "{line}");
    assert!(line.contains("\"unstable\":true"), "{line}");
}

#[test]
fn result_json_and_csv_are_stable() {
    let case = BenchmarkCase::new(
        "csv,case",
        1,
        BenchmarkScenario::File,
        BenchmarkTransport::TcpUserspace,
        1024,
        256,
        1,
        TimingMode::SetupIncluded,
        FileCompletionPolicy::Durable,
        0,
    )
    .unwrap();
    let report = B4Report::from_records(vec![B4FileRunRecord::success(
        case.clone(),
        result(&case),
    )]);
    let throughputs = vec![text(123.0)];
    let summaries = vec![summary(&[123.0]).0];
    let lines = report.json_lines(&throughputs, &summaries);
    assert_eq!(lines.len(), 2);
    assert!(lines[0].contains("\"throughput_gbit_s\":"));
    assert!(lines[1].contains("\"record_type\":\"aggregate\""));
    let csv = report.to_csv(&throughputs, &summaries);
    assert!(csv.starts_with("record_type,status,case_id"));
    assert!(csv.contains("\"csv,case\""));
    assert_eq!(csv.lines().count(), 3);
    assert!(csv.contains("aggregate,stable,,,tcp-userspace"));
}

#[test]
fn incomplete_results_are_refused() {
    let case = config(17, 1).cases().unwrap().remove(0);
    assert!(validate_b4_result(&case, &result(&case)).is_ok());

    let mut other = result(&case);
    other.case_id = "another".to_string();
    assert!(validate_b4_result(&case, &other).is_err());

    let mut short = result(&case);
    short.transport_stats.insert("bytes_received", 16);
    let detail = validate_b4_result(&case, &short).unwrap_err();
    assert!(!detail.is_empty());
    assert_eq!(
        B4FileRunRecord::success(case, short).status,
        B4CaseStatus::Failed
    );
}

#[test]
fn matrices_need_repeats_transports_and_the_announced_file() {
    let mut candidate = config(17, 1);
    candidate.repeat_count = 0;
    assert!(candidate.validate().is_err());
    let mut candidate = config(17, 1);
    candidate.transports.clear();
    assert!(candidate.validate().is_err());
    let (source, _) = generate(18, 42, 7);
    assert!(B4FileMatrixRunner::prepare(config(17, 1), Ok(source)).is_err());
    let missing = Error::Protocol("missing".to_string());
    assert!(B4FileMatrixRunner::prepare(config(17, 1), Err(missing)).is_err());
}
