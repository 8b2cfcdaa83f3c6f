use urma_transport_lab::urma_benchmark::{
    idle_timeout_elapsed, receive_credit_target, scaled_ratio,
};
use urma_transport_lab::{
    crc32_bytes, derive_urma_slot_size, validate_urma_case, BenchmarkCase, BenchmarkScenario,
    BenchmarkSink, BenchmarkTransport, DigestDescriptor, FileCompletionPolicy,
    IntegrationMessageV3, JettyConfig, MemorySink, PipelineTracker, ReceiveCreditController,
    RemoteCreditReturn, RemoteReceiveCredit, RuntimeConfig, TimingMode, UrmaPipelineLimits,
    UrmaReceiveState,
};

const SECOND: u128 = 1_000_000_000;

fn case(bytes: u64, chunk: u64, window: u32) -> BenchmarkCase {
    BenchmarkCase::new(
        "b2-test",
        1,
        BenchmarkScenario::Memory,
        BenchmarkTransport::Urma,
        bytes,
        chunk,
        window,
        TimingMode::SteadyState,
        FileCompletionPolicy::Buffered,
        7,
    )
    .unwrap()
}

fn limits() -> UrmaPipelineLimits {
    UrmaPipelineLimits {
        slot_size: 64 * 1024,
        tx_slot_count: 8,
        rx_slot_count: 8,
        send_jfc_depth: 64,
        recv_jfc_depth: 64,
        jetty_send_depth: 64,
        jetty_recv_depth: 64,
        provider_max_message_size: 64 * 1024,
    }
}

#[test]
fn validates_window_and_chunk_against_every_limit() {
    validate_urma_case(&case(1024, 1024, 8), limits()).unwrap();
    assert!(validate_urma_case(&case(1024, 1024, 9), limits()).is_err());
    assert!(validate_urma_case(&case(65_537, 65_537, 1), limits()).is_err());
}

#[test]
fn derives_aligned_slots_for_b3_payload_candidates() {
    for payload in [64 * 1024, 256 * 1024, 512 * 1024, 1024 * 1024] {
        let benchmark = case(payload as u64, payload as u64, 4);
        let slot = derive_urma_slot_size(&benchmark, 4096).unwrap();
        assert!(slot >= payload);
        assert_eq!(slot % 4096, 0);
        let mut candidate = limits();
        candidate.slot_size = slot;
        candidate.provider_max_message_size = slot as u64;
        validate_urma_case(&benchmark, candidate).unwrap();
    }
}

#[test]
fn rejects_small_slot_and_provider_message_limit() {
    let benchmark = case(256 * 1024, 256 * 1024, 4);
    let slot = derive_urma_slot_size(&benchmark, 4096).unwrap();
    let mut candidate = limits();
    candidate.slot_size = 256 * 1024 - 1;
    candidate.provider_max_message_size = slot as u64;
    assert!(validate_urma_case(&benchmark, candidate).is_err());

    candidate.slot_size = slot;
    candidate.provider_max_message_size = (slot - 1) as u64;
    assert!(validate_urma_case(&benchmark, candidate).is_err());
}

#[test]
fn bounded_pipeline_reaches_multiple_outstanding_and_drains() {
    let mut pipeline = PipelineTracker::new(4).unwrap();
    for _ in 0..4 {
        pipeline.posted().unwrap();
    }
    assert!(!pipeline.can_post());
    assert!(pipeline.posted().is_err());
    assert!(pipeline.maximum() > 1);
    for _ in 0..4 {
        pipeline.completed().unwrap();
    }
    assert_eq!(pipeline.current(), 0);
}

#[test]
fn receive_credit_replenishes_without_overposting() {
    let mut credit = ReceiveCreditController::new(4, 7).unwrap();
    while credit.posts_needed() != 0 {
        assert_eq!(credit.next_post_sequence(), credit.current_credit() as u64);
        credit.posted().unwrap();
    }
    assert_eq!(credit.current_credit(), 4);
    credit.completed().unwrap();
    assert_eq!(credit.posts_needed(), 1);
    credit.posted().unwrap();
    for _ in 0..6 {
        credit.completed().unwrap();
        while credit.posts_needed() != 0 {
            credit.posted().unwrap();
        }
    }
    assert_eq!(credit.remaining_messages(), 0);
    assert_eq!(credit.current_credit(), 0);
    assert_eq!(credit.next_post_sequence(), 7);
}

#[test]
fn remote_receive_credit_is_independent_of_local_completion() {
    let mut credit = RemoteReceiveCredit::new(4).unwrap();
    for _ in 0..4 {
        assert!(credit.can_send());
        credit.consume().unwrap();
    }
    assert!(!credit.can_send());
    assert!(credit.consume().is_err());
    credit.waited().unwrap();
    credit.grant(2).unwrap();
    assert_eq!(credit.initial(), 4);
    assert_eq!(credit.available(), 2);
    assert_eq!(credit.returned(), 2);
    assert_eq!(credit.consumed(), 4);
    assert_eq!(credit.updates(), 1);
    assert_eq!(credit.waits(), 1);
    assert!(credit.grant(0).is_err());
}

#[test]
fn remote_credit_is_returned_only_in_reposted_batches() {
    let mut returned = RemoteCreditReturn::new(512).unwrap();
    assert_eq!(returned.threshold(), 128);
    assert_eq!(returned.reposted(127).unwrap(), None);
    assert_eq!(returned.reposted(1).unwrap(), Some(128));
    assert_eq!(returned.reposted(300).unwrap(), Some(256));
    assert_eq!(returned.pending(), 44);
    assert_eq!(returned.returned(), 384);
    assert_eq!(returned.updates(), 2);
    assert_eq!(returned.flush().unwrap(), Some(44));
    assert_eq!(returned.pending(), 0);
    assert_eq!(returned.returned(), 428);
    assert_eq!(returned.updates(), 3);
    assert_eq!(returned.flush().unwrap(), None);

    let returned = RemoteCreditReturn::new(3).unwrap();
    assert_eq!(returned.threshold(), 1);
}

#[test]
fn batched_remote_credit_preserves_one_final_end_receive() {
    let data_messages = 32_768usize;
    let total_messages = data_messages + 1;
    let mut local = ReceiveCreditController::new(512, total_messages).unwrap();
    while local.posts_needed() != 0 {
        local.posted().unwrap();
    }
    let mut remote = RemoteReceiveCredit::new(local.current_credit()).unwrap();
    let mut returned = RemoteCreditReturn::new(local.current_credit()).unwrap();

    for _ in 0..data_messages {
        assert!(remote.can_send());
        remote.consume().unwrap();
        local.completed().unwrap();
        let mut reposted = 0;
        while local.posts_needed() != 0 {
            local.posted().unwrap();
            reposted += 1;
        }
        if let Some(count) = returned.reposted(reposted).unwrap() {
            remote.grant(count).unwrap();
        }
    }

    if let Some(count) = returned.flush().unwrap() {
        remote.grant(count).unwrap();
    }
    assert!(remote.can_send(), "End must retain one remote RQE");
    remote.consume().unwrap();
    local.completed().unwrap();
    assert_eq!(local.remaining_messages(), 0);
    assert_eq!(local.current_credit(), 0);
}

#[test]
fn idle_timeout_is_measured_from_latest_progress() {
    let start: u128 = 1_000;
    let timeout = 30 * SECOND;
    let progress = start + 25 * SECOND;
    let now = start + 40 * SECOND;

    assert!(idle_timeout_elapsed(start, now, timeout));
    assert!(!idle_timeout_elapsed(progress, now, timeout));
}

#[test]
fn scaled_poll_ratios_are_stable_and_overflow_safe() {
    assert_eq!(scaled_ratio(3, 4, 1_000_000), 750_000);
    assert_eq!(scaled_ratio(4, 3, 1_000), 1_333);
    assert_eq!(scaled_ratio(1, 0, 1_000), 0);
    assert_eq!(scaled_ratio(u64::MAX, 1, u64::MAX), u64::MAX);
}

#[test]
fn receive_credit_target_adds_bounded_rq_headroom() {
    assert_eq!(receive_credit_target(4, 8, 100), Ok(8));
    assert_eq!(receive_credit_target(8, 8, 100), Ok(8));
    assert_eq!(receive_credit_target(4, 16, 3), Ok(3));
    assert_eq!(receive_credit_target(usize::MAX, 8, 100), Ok(8));
}

#[test]
fn receive_state_checks_sequence_length_crc_and_zero_length() {
    let payload = b"abcdef";
    let crc = crc32_bytes(payload);
    let mut state = UrmaReceiveState::new(1, payload.len() as u64, crc).unwrap();
    state
        .accept_metadata(&IntegrationMessageV3::metadata(
            1,
            0,
            payload.len() as u64,
            DigestDescriptor::crc32(crc),
        ))
        .unwrap();
    let mut sink = MemorySink::new(payload.len() as u64, crc);
    assert!(state
        .accept_payload(
            &IntegrationMessageV3::data(1, 1, payload.to_vec()),
            &mut sink
        )
        .is_err());

    let mut state = UrmaReceiveState::new(1, payload.len() as u64, crc).unwrap();
    state
        .accept_metadata(&IntegrationMessageV3::metadata(
            1,
            0,
            payload.len() as u64,
            DigestDescriptor::crc32(crc),
        ))
        .unwrap();
    state
        .accept_payload(
            &IntegrationMessageV3::data(1, 0, payload.to_vec()),
            &mut sink,
        )
        .unwrap();
    assert!(state
        .accept_payload(&IntegrationMessageV3::end(1, 1, 7), &mut sink)
        .is_err());

    let mut empty = UrmaReceiveState::new(2, 0, crc32_bytes(b"")).unwrap();
    empty
        .accept_metadata(&IntegrationMessageV3::metadata(
            2,
            0,
            0,
            DigestDescriptor::crc32(crc32_bytes(b"")),
        ))
        .unwrap();
    let mut empty_sink = MemorySink::new(0, crc32_bytes(b""));
    assert!(empty
        .accept_payload(&IntegrationMessageV3::end(2, 0, 0), &mut empty_sink)
        .unwrap());
    assert!(empty_sink.finish().unwrap().is_ok());
}

#[test]
fn receive_state_rejects_crc_mismatch() {
    let mut state = UrmaReceiveState::new(3, 1, crc32_bytes(b"a")).unwrap();
    state
        .accept_metadata(&IntegrationMessageV3::metadata(
            3,
            0,
            1,
            DigestDescriptor::crc32(crc32_bytes(b"a")),
        ))
        .unwrap();
    let mut sink = MemorySink::new(1, crc32_bytes(b"a"));
    state
        .accept_payload(&IntegrationMessageV3::data(3, 0, b"b".to_vec()), &mut sink)
        .unwrap();
    assert!(state
        .accept_payload(&IntegrationMessageV3::end(3, 1, 1), &mut sink)
        .unwrap());
    assert!(!sink.finish().unwrap().is_ok());
}

#[test]
fn trackers_and_controllers_need_room() {
    assert!(PipelineTracker::new(0).is_err());
    assert!(RemoteReceiveCredit::new(0).is_err());
    assert!(RemoteCreditReturn::new(0).is_err());
    assert!(ReceiveCreditController::new(0, 4).is_err());
    let mut pipeline = PipelineTracker::new(1).unwrap();
    assert!(pipeline.completed().is_err());
    assert_eq!(pipeline.configured_window(), 1);
    let mut credit = ReceiveCreditController::new(1, 1).unwrap();
    assert!(credit.completed().is_err());
    credit.posted().unwrap();
    assert!(credit.posted().is_err());
}

#[test]
fn waits_for_credit_are_timed() {
    let mut credit = RemoteReceiveCredit::new(1).unwrap();
    credit.record_wait_duration(5);
    credit.record_wait_duration(3);
    assert_eq!(credit.wait_ns(), 8);
    assert_eq!(credit.max_wait_ns(), 5);
    credit.record_wait_duration(u128::MAX);
    assert_eq!(credit.wait_ns(), u64::MAX);
}

#[test]
fn limits_come_from_the_configurations() {
    let limits = UrmaPipelineLimits::from_configs(
        &RuntimeConfig::new("urma0", 0),
        &JettyConfig::default(),
    )
    .with_provider_max_message_size(99);
    assert_eq!(limits.send_jfc_depth, 4096);
    assert_eq!(limits.provider_max_message_size, 99);
}

#[test]
fn receivers_refuse_strangers_and_messages_after_the_end() {
    assert!(UrmaReceiveState::new(0, 1, 0).is_err());
    let mut state = UrmaReceiveState::new(2, 0, 0).unwrap();
    let mut sink = MemorySink::new(0, 0);
    assert!(state
        .accept_payload(&IntegrationMessageV3::end(2, 0, 0), &mut sink)
        .is_err());
    let metadata = IntegrationMessageV3::metadata(2, 0, 0, DigestDescriptor::crc32(0));
    state.accept_metadata(&metadata).unwrap();
    assert!(state.accept_metadata(&metadata).is_err());
    assert!(state
        .accept_payload(&IntegrationMessageV3::end(3, 0, 0), &mut sink)
        .is_err());
    assert!(state
        .accept_payload(&IntegrationMessageV3::end(2, 0, 0), &mut sink)
        .unwrap());
    assert!(state
        .accept_payload(&IntegrationMessageV3::end(2, 0, 0), &mut sink)
        .is_err());
}
