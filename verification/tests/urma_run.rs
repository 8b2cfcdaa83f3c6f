use urma_transport_lab::benchmark::stats::TransportStats;
use urma_transport_lab::buffer::{RegisteredRxChunk, RegisteredRxWindowLease};
use urma_transport_lab::completion::CompletedRecv;
use urma_transport_lab::urma_benchmark::control::{
    begin_credit_wait, control_header, decode_credit, decode_done, decode_ready, encode_credit,
    encode_done, encode_ready, expect_case, expect_kind, expect_ready, parse_control_header,
    take_done_frame, take_waited_frame, Done, PayloadPollStats, CREDIT, DONE, READY, START,
};
use urma_transport_lab::urma_benchmark::profile::{
    bounded_repost_count, check_parent, message_count, plan_windows, registered_rx_window_chunks,
    select_crc_worker_count,
};
use urma_transport_lab::urma_benchmark::receiver::{
    announced_crc32, expected_data_messages, ChildRun, ReceiveStep,
};
use urma_transport_lab::urma_benchmark::sender::{
    check_done, check_drained, check_request, count_post, note_progress, repeated_payload_crc32,
    run_end, run_metadata, source_range, take_send_completions, tx_batch_lengths, FixedSend,
    PositionalRead, PreadOutcome, WindowedSend, IDLE_TIMEOUT_NS, REQUEST_ID,
};
use urma_transport_lab::urma_benchmark::stats::{
    combined_stats, cpu_elapsed_since, insert_remote_credit_stats, optional_sequence_json,
    parent_timeout_json, pending_wr_json,
};
use urma_transport_lab::urma_benchmark::window::{
    hash_window, validate_registered_window_layout, write_positions, SinkPipeline, WindowJob,
    WindowOutcome, WindowSink,
};
use urma_transport_lab::{
    crc32_bytes, BenchmarkCase, BenchmarkScenario, BenchmarkTransport, BufferPoolConfig,
    CompletionDiagnostic, CompletionEvent, CompletionStats, CpuUsage, Crc32Hasher,
    DigestDescriptor, Error, FileCompletionPolicy, IntegrationMessageV3, IntegrityResult,
    PendingWrSnapshot, PipelineTracker, ReceiveCreditController, RemoteReceiveCredit, SlotId,
    SlotState, SlotStateSnapshot, TimingMode, UrmaBenchmarkProfile, UrmaBenchmarkSource,
    UrmaReceiveState,
};

fn lease(parts: &[&[u8]], chunks: &[(u64, usize)]) -> RegisteredRxWindowLease {
    RegisteredRxWindowLease::detached(
        parts.iter().map(|part| part.len()).collect(),
        chunks
            .iter()
            .map(|&(sequence, length)| RegisteredRxChunk {
                sequence: Some(sequence),
                length,
            })
            .collect(),
    )
}

/// Does what a worker does with a window whose bytes are `memory`.
fn hashed(job: WindowJob, memory: &[u8]) -> WindowOutcome {
    WindowOutcome {
        order: job.order,
        length: job.window.len(),
        digest: match validate_registered_window_layout(&job.window) {
            Ok(()) => Ok(hash_window(memory, &job.window)),
            Err(error) => Err(error),
        },
        window: job.window,
    }
}

fn memory_case(bytes: u64, window: u32) -> BenchmarkCase {
    BenchmarkCase::new(
        "native-test",
        1,
        BenchmarkScenario::Memory,
        BenchmarkTransport::Urma,
        bytes,
        64 * 1024,
        window,
        TimingMode::SteadyState,
        FileCompletionPolicy::Buffered,
        0,
    )
    .unwrap()
}

#[test]
fn performance_profiles_size_rx_backing_independently_of_jfr_depth() {
    let case = memory_case(2 * 1024 * 1024 * 1024, 128);
    assert_eq!(
        UrmaBenchmarkProfile::Normal.rx_slots(&case, false).unwrap(),
        512
    );
    assert_eq!(
        UrmaBenchmarkProfile::Normal.rx_slots(&case, true).unwrap(),
        4096
    );
    assert_eq!(
        UrmaBenchmarkProfile::TransportOnly
            .rx_slots(&case, true)
            .unwrap(),
        32_769
    );
    assert_eq!(
        UrmaBenchmarkProfile::FixedTxTransportOnly
            .rx_slots(&case, true)
            .unwrap(),
        32_769
    );
    assert!(UrmaBenchmarkProfile::FixedTxTransportOnly.uses_fixed_tx());
    assert!(UrmaBenchmarkProfile::FixedTxTransportOnly.transport_only());
}

#[test]
fn crc_worker_selection_respects_affinity_and_explicit_limit() {
    assert_eq!(select_crc_worker_count(256, None, 25).unwrap(), 24);
    assert_eq!(select_crc_worker_count(256, Some(24), 25).unwrap(), 24);
    assert_eq!(select_crc_worker_count(16, None, 64).unwrap(), 16);
    assert!(select_crc_worker_count(256, Some(25), 25).is_err());
    assert!(select_crc_worker_count(256, Some(33), 64).is_err());
    assert!(select_crc_worker_count(256, Some(0), 64).is_err());
}

#[test]
fn fixed_memory_source_is_virtual_and_matches_case_length() {
    let case = memory_case(8 * 1024 * 1024 * 1024, 64);
    let source = UrmaBenchmarkSource::fixed_memory(case.transfer_bytes);
    assert!(source.validate(&case).is_ok());
    assert!(source.expected_crc32().is_err());
}

#[test]
fn repeated_payload_crc_combine_matches_linear_hashing() {
    let payload = b"fixed-payload";
    for repetitions in [0, 1, 2, 3, 7, 32, 255, 1024] {
        let mut linear = Crc32Hasher::new();
        for _ in 0..repetitions {
            linear.update(payload);
        }
        assert_eq!(
            repeated_payload_crc32(payload, repetitions),
            linear.finalize(),
            "repetitions={repetitions}"
        );
    }
}

#[test]
fn registered_windows_partition_the_physical_rq() {
    assert_eq!(registered_rx_window_chunks(128, 512).unwrap(), 128);
    assert_eq!(registered_rx_window_chunks(100, 512).unwrap(), 64);
    assert_eq!(registered_rx_window_chunks(128, 128).unwrap(), 128);
    assert_eq!(registered_rx_window_chunks(3, 8).unwrap(), 2);
}

#[test]
fn receive_refill_is_bounded_by_physically_free_slots() {
    assert_eq!(bounded_repost_count(16, 0), 0);
    assert_eq!(bounded_repost_count(128, 32), 32);
    assert_eq!(bounded_repost_count(64, 512), 64);
}

#[test]
fn registered_rx_pipeline_reports_sequence_failure() {
    let payload = b"abcdefgh".to_vec();
    let expected_crc32 = crc32_bytes(&payload);
    let metadata = IntegrationMessageV3::metadata(
        REQUEST_ID,
        0,
        payload.len() as u64,
        DigestDescriptor::crc32(expected_crc32),
    );
    let mut receiver =
        UrmaReceiveState::new(REQUEST_ID, payload.len() as u64, expected_crc32).unwrap();
    receiver.accept_metadata(&metadata).unwrap();
    receiver.accept_data_length(0, 4).unwrap();
    let error = receiver.accept_data_length(0, 4).unwrap_err();
    assert!(matches!(error, Error::Protocol(_)));
}

#[test]
fn tx_batches_keep_wr_chunks_within_provider_payload() {
    let chunk = 64 * 1024;
    let full = tx_batch_lengths((chunk * 128) as u64, chunk, 64).unwrap();
    assert_eq!(full.len(), 64);
    assert!(full.iter().all(|&length| length == chunk));
    assert_eq!(full.iter().sum::<usize>(), 4 * 1024 * 1024);

    let tail = tx_batch_lengths((chunk * 2 + 17) as u64, chunk, 64).unwrap();
    assert_eq!(tail, vec![chunk, chunk, 17]);
    assert!(tx_batch_lengths(0, chunk, 64).is_err());
    assert!(tx_batch_lengths(1, 0, 64).is_err());
    assert!(tx_batch_lengths(1, chunk, 0).is_err());
}

#[test]
fn ready_control_round_trip_binds_case_and_posted_credit() {
    let profile = UrmaBenchmarkProfile::FixedTxTransportOnly;
    let payload = encode_ready("credit-case", 512, profile).unwrap();
    assert_eq!(
        decode_ready(&payload).unwrap(),
        ("credit-case".to_string(), 512, profile.wire_id())
    );

    let mut truncated = payload.clone();
    truncated.pop();
    assert!(decode_ready(&truncated).is_err());

    let zero = encode_ready("credit-case", 0, profile).unwrap();
    assert!(decode_ready(&zero).is_err());
}

#[test]
fn credit_control_rejects_zero_and_wrong_length() {
    assert_eq!(decode_credit(&128u32.to_be_bytes()).unwrap(), 128);
    assert!(decode_credit(&0u32.to_be_bytes()).is_err());
    assert!(decode_credit(&[0, 1]).is_err());
}

#[test]
fn done_control_round_trip_preserves_hybrid_polling_stats() {
    let done = Done {
        case_id: "hybrid-poll".into(),
        integrity: IntegrityResult::new(64, 64, 7, 7),
        elapsed_ns: 11,
        child_cpu: CpuUsage {
            user_us: 13,
            system_us: 17,
        },
        completion: CompletionStats {
            send_post: 1,
            recv_post: 2,
            send_post_calls: 1,
            recv_post_calls: 1,
            send_post_list_max: 1,
            recv_post_list_max: 2,
            send_cqe: 3,
            send_retired: 4,
            recv_cqe: 5,
            cqe_error: 6,
            poll_calls: 7,
            empty_polls: 8,
            send_jfc_poll_calls: 9,
            send_jfc_empty_polls: 10,
            recv_jfc_poll_calls: 11,
            recv_jfc_empty_polls: 12,
            yield_count: 13,
            sleep_count: 14,
            backoff_sleep_ns: 15,
            jfc_rearm_count: 16,
            event_wait_count: 17,
            event_wakeup_count: 18,
            event_timeout_count: 19,
            spurious_wakeup_count: 20,
            event_wait_ns: 21,
            max_event_wait_ns: 22,
            max_empty_streak: 23,
            nonempty_polls: 24,
            completion_batch_total: 25,
            max_completion_poll_gap_ns: 26,
            max_outstanding_send: 27,
        },
        payload_poll: PayloadPollStats {
            poll_calls: 28,
            empty_polls: 29,
            send_jfc_poll_calls: 30,
            send_jfc_empty_polls: 31,
            recv_jfc_poll_calls: 32,
            recv_jfc_empty_polls: 33,
        },
        bytes_received: 64,
    };

    assert_eq!(decode_done(&encode_done(&done).unwrap()).unwrap(), done);
}

#[test]
fn registered_rx_pipeline_preserves_chunk_order_and_integrity() {
    let chunks: [&[u8]; 3] = [b"abcd", b"efgh", b"ijk"];
    let payload = chunks.concat();
    let expected_crc32 = crc32_bytes(&payload);
    let sink = WindowSink::memory(payload.len() as u64, expected_crc32);
    let mut pipeline = SinkPipeline::start(sink, 2).unwrap();
    let (first_worker, first) = pipeline
        .push(0, lease(&[chunks[0]], &[(0, chunks[0].len())]))
        .unwrap();
    let (second_worker, second) = pipeline
        .push(
            chunks[0].len() as u64,
            lease(
                &[chunks[1], chunks[2]],
                &[(1, chunks[1].len()), (2, chunks[2].len())],
            ),
        )
        .unwrap();
    assert_ne!(first_worker, second_worker);
    pipeline.accept_outcome(hashed(first, chunks[0]));
    pipeline.accept_outcome(hashed(second, &payload[4..]));
    let totals = pipeline.finish(true).unwrap();
    let integrity = totals
        .sink
        .finish(totals.actual_bytes, totals.actual_crc32, Ok(()))
        .unwrap();
    assert!(integrity.is_ok());
    assert_eq!(totals.recycled.len(), 2);
}

#[test]
fn out_of_order_worker_results_retire_leases_in_wire_order() {
    let sink = WindowSink::memory(2, crc32_bytes(b"ab"));
    let mut pipeline = SinkPipeline::start(sink, 2).unwrap();

    let outcome = |order, sequence, byte| {
        let mut digest = Crc32Hasher::new();
        digest.update(&[byte]);
        WindowOutcome {
            order,
            length: 1,
            digest: Ok(digest),
            window: lease(&[&[byte]], &[(sequence, 1)]),
        }
    };

    pipeline.accept_outcome(outcome(1, 1, b'b'));
    assert!(pipeline.take_recycled().is_empty());
    pipeline.accept_outcome(outcome(0, 0, b'a'));

    let retired_sequences = pipeline
        .take_recycled()
        .iter()
        .map(|window| window.chunks()[0].sequence.unwrap())
        .collect::<Vec<_>>();
    assert_eq!(retired_sequences, vec![0, 1]);
}

#[test]
fn transport_only_defers_crc_until_finish() {
    let payload = b"deferred-transport-verification".to_vec();
    let sink = WindowSink::memory(payload.len() as u64, crc32_bytes(&payload));
    let mut pipeline = SinkPipeline::start(sink, 2).unwrap();
    let (_, deferred) = pipeline
        .push(0, lease(&[&payload], &[(0, payload.len())]))
        .unwrap();
    assert!(pipeline.take_recycled().is_empty());
    assert_eq!(pipeline.outstanding(), 1);
    pipeline.accept_outcome(hashed(deferred, &payload));
    let totals = pipeline.finish(true).unwrap();
    let integrity = totals
        .sink
        .finish(totals.actual_bytes, totals.actual_crc32, Ok(()))
        .unwrap();
    assert!(integrity.is_ok());
    assert_eq!(totals.recycled.len(), 1);
}

#[test]
fn direct_file_sink_pwrites_and_hashes_each_window() {
    let payload = b"registered-window-direct-file";
    let expected_crc32 = crc32_bytes(payload);
    let sink = WindowSink::file(
        payload.len() as u64,
        expected_crc32,
        FileCompletionPolicy::Buffered,
        Ok(()),
    )
    .unwrap();
    let mut file = vec![0u8; payload.len()];
    let mut pipeline = SinkPipeline::start(sink, 2).unwrap();
    let windows: [(u64, &[u8]); 2] = [(0, &payload[..10]), (10, &payload[10..])];
    for (sequence, (position, bytes)) in windows.into_iter().enumerate() {
        let (_, job) = pipeline
            .push(position, lease(&[bytes], &[(sequence as u64, bytes.len())]))
            .unwrap();
        for (at, span) in write_positions(&job.window, job.position)
            .into_iter()
            .zip(job.window.parts())
        {
            file[at as usize..at as usize + span.length]
                .copy_from_slice(&bytes[span.offset..span.offset + span.length]);
        }
        pipeline.accept_outcome(hashed(job, bytes));
    }
    let totals = pipeline.finish(true).unwrap();
    assert!(!totals.sink.needs_sync());
    assert!(totals
        .sink
        .finish(totals.actual_bytes, totals.actual_crc32, Ok(()))
        .unwrap()
        .is_ok());
    assert_eq!(file, payload);
}

#[test]
fn positional_source_read_fills_exact_registered_range() {
    let file = b"0123456789";
    let mut output = [0u8; 5];
    let mut read = PositionalRead::new(3, 5);
    while let Some((offset, length)) = read.next() {
        let from = offset as usize;
        let count = length.min(file.len() - from);
        let filled = read.filled;
        output[filled..filled + count].copy_from_slice(&file[from..from + count]);
        read.observe(PreadOutcome::Read(count)).unwrap();
    }
    assert_eq!(&output, b"34567");
    assert_eq!(read.calls, 1);

    let mut too_long = PositionalRead::new(8, 4);
    assert_eq!(too_long.next(), Some((8, 4)));
    too_long.observe(PreadOutcome::Interrupted).unwrap();
    too_long.observe(PreadOutcome::Read(2)).unwrap();
    assert_eq!(too_long.next(), Some((10, 2)));
    assert!(too_long.observe(PreadOutcome::Read(0)).is_err());
}

#[test]
fn windows_with_wrong_layout_and_lost_workers_fail_the_pipeline() {
    let bad = lease(&[b"abcd"], &[(0, 3)]);
    assert!(validate_registered_window_layout(&bad).is_err());
    let mut pipeline = SinkPipeline::start(WindowSink::memory(4, 0), 1).unwrap();
    assert!(pipeline.push(0, bad).is_err());
    let (_, job) = pipeline.push(0, lease(&[b"abcd"], &[(0, 4)])).unwrap();
    pipeline.accept_outcome(WindowOutcome {
        order: job.order,
        length: 4,
        digest: Err(Error::Protocol("disk full".to_string())),
        window: job.window,
    });
    assert!(pipeline.finish(true).is_err());

    let mut pipeline = SinkPipeline::start(WindowSink::memory(4, 0), 1).unwrap();
    pipeline.push(0, lease(&[b"abcd"], &[(0, 4)])).unwrap();
    assert!(pipeline.workers_gone().is_err());
    let error = pipeline.worker_disconnected();
    assert!(matches!(error, Error::Protocol(_)));
    assert!(SinkPipeline::start(WindowSink::memory(4, 0), 0).is_err());
    let sink = WindowSink::file(4, 0, FileCompletionPolicy::Durable, Ok(())).unwrap();
    assert!(sink.needs_sync());
    assert!(sink.finish(4, 0, Err("sync".to_string())).is_err());
    assert!(WindowSink::file(4, 0, FileCompletionPolicy::Durable, Err("no".to_string())).is_err());
}

#[test]
fn batches_cover_the_source_in_order() {
    let mut send = WindowedSend::new(10, 4, 2);
    let mut cuts = Vec::new();
    while !send.is_finished() {
        let count = send.next_count();
        assert!(send.waits_before_fill(count - 1));
        assert!(!send.waits_before_fill(count));
        let batch = send.next_batch().unwrap();
        cuts.push(batch.lengths.clone());
        send.posted(&batch).unwrap();
    }
    assert_eq!(cuts, vec![vec![4, 4], vec![2]]);
    assert_eq!(send.bytes_sent, 10);
    assert_eq!(send.sequence, 3);
    assert_eq!(source_range(b"0123456789", 8, 2).unwrap(), b"89");
    assert!(source_range(b"0123456789", 8, 3).is_err());
}

#[test]
fn fixed_sends_repeat_one_payload() {
    let mut send = FixedSend::new(4, 3).unwrap();
    let mut sequences = Vec::new();
    while let Some((sequence, _)) = send.next() {
        sequences.push(sequence);
        send.posted().unwrap();
    }
    assert_eq!(sequences, vec![0, 1, 2]);
    assert_eq!(send.bytes_sent, 12);
    assert!(FixedSend::new(4, u64::MAX).is_err());
}

#[test]
fn control_frames_round_trip() {
    let payload = encode_credit(7).unwrap();
    let header = control_header(CREDIT, &payload).unwrap();
    assert_eq!(parse_control_header(&header), Ok((CREDIT, 4)));
    let mut bad = header.clone();
    bad[0] ^= 1;
    assert!(parse_control_header(&bad).is_err());
    assert!(control_header(CREDIT, &[0; 4097]).is_err());
    assert!(expect_kind(READY, READY).is_ok());
    assert!(expect_kind(START, READY).is_err());
    assert!(expect_case(b"case-a", "case-a").is_ok());
    assert!(expect_case(b"case-b", "case-a").is_err());

    let profile = UrmaBenchmarkProfile::Normal;
    let ready = encode_ready("case-a", 8, profile).unwrap();
    assert_eq!(expect_ready(&ready, "case-a", 8, profile), Ok(8));
    assert!(expect_ready(&ready, "case-b", 8, profile).is_err());
    assert!(expect_ready(&ready, "case-a", 8, UrmaBenchmarkProfile::Rx128).is_err());
}

#[test]
fn waiting_for_credit_takes_credit_frames_only() {
    let mut credit = RemoteReceiveCredit::new(2).unwrap();
    assert_eq!(begin_credit_wait(&mut credit, 1), Ok(true));
    assert!(begin_credit_wait(&mut credit, 3).is_err());
    credit.consume().unwrap();
    credit.consume().unwrap();
    assert_eq!(begin_credit_wait(&mut credit, 2), Ok(false));
    let one = encode_credit(1).unwrap();
    assert_eq!(take_waited_frame(&mut credit, 2, CREDIT, &one), Ok(false));
    assert_eq!(take_waited_frame(&mut credit, 2, CREDIT, &one), Ok(true));
    assert!(take_waited_frame(&mut credit, 2, READY, &one).is_err());
    assert!(take_done_frame(&mut credit, CREDIT, &one).is_err());
    credit.consume().unwrap();
    assert_eq!(take_done_frame(&mut credit, CREDIT, &one), Ok(false));
    assert_eq!(take_done_frame(&mut credit, DONE, &[]), Ok(true));
    assert!(take_done_frame(&mut credit, START, &[]).is_err());
    assert_eq!(credit.available(), 2);
}

#[test]
fn a_receiving_run_gathers_windows_and_settles() {
    let case = BenchmarkCase {
        transfer_bytes: 10,
        chunk_size: 4,
        ..memory_case(10, 2)
    };
    let messages = message_count(&case).unwrap();
    assert_eq!(messages, 4);
    assert_eq!(expected_data_messages(&case), Ok(3));
    let mut controller = ReceiveCreditController::new(4, messages).unwrap();
    while controller.posts_needed() != 0 {
        controller.posted().unwrap();
    }
    let metadata = run_metadata(&case, 5);
    assert_eq!(announced_crc32(&metadata), Ok(5));
    let mut receiver = UrmaReceiveState::new(REQUEST_ID, 10, 5).unwrap();
    receiver.accept_metadata(&metadata).unwrap();
    let mut run = ChildRun::new(3, 2, controller, receiver);
    let message = |sequence: u64, length: u32| CompletedRecv {
        slot: SlotId::from_index(sequence as usize),
        sequence: Some(sequence),
        length,
    };
    assert!(matches!(run.take(message(0, 4)), Ok(ReceiveStep::Kept)));
    match run.take(message(1, 4)) {
        Ok(ReceiveStep::Window(window)) => assert_eq!(window.len(), 2),
        _ => panic!("no window"),
    }
    assert_eq!(run.window_position(8), Ok(0));
    let step = run.take(message(2, 2)).unwrap();
    match step {
        ReceiveStep::Window(window) => assert_eq!(window.len(), 1),
        ReceiveStep::Kept => assert!(run.flushes()),
        ReceiveStep::End => panic!("end"),
    }
    assert!(run.has_all_data());
    assert_eq!(run.bytes_received(), 10);
    assert!(matches!(run.take(message(3, 36)), Ok(ReceiveStep::End)));
    run.accept_end(&run_end(&case, 3)).unwrap();
    let good = IntegrityResult::new(10, 10, 5, 5);
    assert!(run.check_settled(0, good).is_ok());
    assert!(run.check_settled(1, good).is_err());
    assert!(run.check_settled(0, IntegrityResult::new(10, 10, 5, 6)).is_err());
}

#[test]
fn sending_is_counted_against_credit_and_window() {
    let mut credit = RemoteReceiveCredit::new(1).unwrap();
    let mut pipeline = PipelineTracker::new(2).unwrap();
    count_post(&mut credit, &mut pipeline).unwrap();
    assert!(count_post(&mut credit, &mut pipeline).is_err());
    let slot = SlotId::from_index(0);
    assert_eq!(
        take_send_completions(&mut pipeline, &vec![CompletionEvent::SendCompleted { slot }]),
        Ok(1)
    );
    assert!(check_drained(&pipeline, 0, 2, 1).is_ok());
    assert!(check_drained(&pipeline, 1, 2, 1).is_err());
    assert_eq!(note_progress(1, 0, 9, "send"), Ok(9));
    assert_eq!(note_progress(0, 3, 9, "send"), Ok(3));
    assert_eq!(
        note_progress(0, 0, IDLE_TIMEOUT_NS, "send"),
        Err(Error::Timeout { operation: "send" })
    );
}

#[test]
fn runs_check_the_request_and_the_answer() {
    let case = memory_case(64 * 1024, 4);
    let request = IntegrationMessageV3::request(REQUEST_ID, "native-test", case.repeat);
    let refused = IntegrationMessageV3::request(REQUEST_ID, "another", case.repeat);
    assert!(check_request(&refused, &case).is_err());
    assert_eq!(check_request(&request, &case), Ok(()));
    assert!(check_parent(
        &case,
        &UrmaBenchmarkSource::fixed_memory(1),
        UrmaBenchmarkProfile::FixedTx
    )
    .is_err());
    let plan = plan_windows(&case, UrmaBenchmarkProfile::Normal, 512).unwrap();
    assert_eq!((plan.chunks, plan.count), (4, 128));
    let mut no_window = case.clone();
    no_window.window = 0;
    assert!(plan_windows(&no_window, UrmaBenchmarkProfile::Normal, 512).is_err());
    let mut done = Done {
        case_id: "native-test".to_string(),
        integrity: IntegrityResult::new(case.transfer_bytes, case.transfer_bytes, 1, 1),
        elapsed_ns: 1,
        child_cpu: CpuUsage::default(),
        completion: CompletionStats::default(),
        payload_poll: PayloadPollStats::from_completion(CompletionStats::default()),
        bytes_received: case.transfer_bytes,
    };
    assert!(check_done(&done, &case).is_ok());
    done.case_id = "another".to_string();
    assert!(check_done(&done, &case).is_err());
}

#[test]
fn statistics_and_timeouts_are_printed() {
    let case = memory_case(64 * 1024, 4);
    let sent = CompletionStats {
        send_post: 3,
        max_outstanding_send: 2,
        ..CompletionStats::default()
    };
    let received = CompletionStats {
        recv_post: 5,
        ..CompletionStats::default()
    };
    let stats = combined_stats(
        &case,
        &BufferPoolConfig::default(),
        sent,
        received,
        65536,
        65536,
        4,
    )
    .unwrap();
    let mut output = TransportStats::new();
    stats.insert_all(&mut output);
    assert_eq!(output.get("send_post"), Some(3));
    assert_eq!(output.get("recv_post"), Some(5));
    let credit = RemoteReceiveCredit::new(4).unwrap();
    insert_remote_credit_stats(&mut output, &credit);
    assert!(output.len() > 40);

    let start = CpuUsage {
        user_us: 1,
        system_us: 2,
    };
    let now = CpuUsage {
        user_us: 5,
        system_us: 2,
    };
    assert_eq!(
        cpu_elapsed_since(now, start),
        Ok(CpuUsage {
            user_us: 4,
            system_us: 0
        })
    );
    assert!(cpu_elapsed_since(start, now).is_err());
    assert_eq!(optional_sequence_json(Some(4)), "4");
    assert_eq!(optional_sequence_json(None), "null");
    let pending = vec![PendingWrSnapshot {
        sequence: Some(1),
        slot: SlotId::from_index(2),
        state: SlotState::SendPosted,
    }];
    assert!(pending_wr_json(&pending).contains("\"sequence\":1"));
    let line = parent_timeout_json(
        "send",
        &PipelineTracker::new(4).unwrap(),
        1,
        sent,
        SlotStateSnapshot::default(),
        &CompletionDiagnostic::default(),
    );
    assert!(line.starts_with("{") && line.ends_with("}"), "{line}");
}

#[test]
fn a_repeated_window_result_fails_the_pipeline() {
    let bytes = b"abcd";
    let mut pipeline =
        SinkPipeline::start(WindowSink::memory(8, crc32_bytes(b"abcdabcd")), 1).unwrap();
    let (_, first) = pipeline.push(0, lease(&[bytes], &[(0, 4)])).unwrap();
    let (_, second) = pipeline.push(4, lease(&[bytes], &[(1, 4)])).unwrap();
    let order = second.order;
    pipeline.accept_outcome(hashed(second, bytes));
    assert!(pipeline.take_recycled().is_empty());
    let repeated = WindowJob {
        order,
        position: 4,
        window: lease(&[bytes], &[(1, 4)]),
    };
    pipeline.accept_outcome(hashed(repeated, bytes));
    pipeline.accept_outcome(hashed(first, bytes));
    assert_eq!(pipeline.take_recycled().len(), 2);
    match pipeline.finish(true) {
        Err(error) => assert_eq!(
            error,
            Error::Protocol("duplicate CRC window result".to_string())
        ),
        Ok(_) => panic!("a repeated result was taken"),
    }
}

#[test]
fn counts_without_a_chunk_size_are_refused() {
    let mut case = memory_case(10 * 64 * 1024, 4);
    assert_eq!(message_count(&case), Ok(11));
    assert_eq!(expected_data_messages(&case), Ok(10));
    case.chunk_size = 0;
    let refused = Error::InvalidConfiguration("chunk_size must be non-zero".to_string());
    assert_eq!(message_count(&case), Err(refused));
    let refused = Error::InvalidConfiguration("chunk_size must be non-zero".to_string());
    assert_eq!(expected_data_messages(&case), Err(refused));
    assert!(UrmaBenchmarkProfile::Normal.divides_by_window(true));
    assert!(!UrmaBenchmarkProfile::Normal.divides_by_window(false));
    assert!(!UrmaBenchmarkProfile::Rx128.divides_by_window(true));
    assert!(!UrmaBenchmarkProfile::TransportOnly.divides_by_window(true));
}
