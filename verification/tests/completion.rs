use urma_transport_lab::buffer::UrmaBufferPool;
use urma_transport_lab::completion::{
    check_deadline, deadline_after, duration_ns_saturating, should_wait_for_event,
    validate_completion_status, CompletionPoller, EVENT_WAIT_TIMEOUT_MS, HOT_POLL_LIMIT,
};
use urma_transport_lab::provider::CompletionRecord;
use urma_transport_lab::wr::{OperationType, WrToken};
use urma_transport_lab::{
    BufferPoolConfig, CompletionEvent, CompletionStats, Error, SlotId, SlotKind, SlotState,
};

fn pool() -> UrmaBufferPool {
    UrmaBufferPool::create(
        BufferPoolConfig {
            slot_size: 64,
            tx_slot_count: 4,
            rx_slot_count: 4,
            alignment: 64,
            alias_tx_slots: false,
        },
        3,
    )
    .unwrap()
}

fn context(operation: OperationType, slot: SlotId) -> u64 {
    WrToken {
        connection_id: 5,
        generation: 1,
        operation,
        slot,
    }
    .encode()
    .unwrap()
}

fn record(user_ctx: u64, is_recv: bool, length: u32) -> CompletionRecord {
    CompletionRecord {
        status: 0,
        opcode: 0,
        user_ctx,
        completion_len: length,
        is_recv,
        is_jetty: true,
        user_ctx_valid: true,
    }
}

fn post_send(poller: &mut CompletionPoller, pool: &mut UrmaBufferPool, sequence: u64, signaled: bool) -> (SlotId, u64) {
    let slot = pool.allocate(SlotKind::Tx).unwrap();
    pool.mark_posted(slot, SlotKind::Tx).unwrap();
    let ctx = context(OperationType::Send, slot);
    poller.track(ctx, Some(sequence), signaled).unwrap();
    (slot, ctx)
}

#[test]
fn expired_deadline_reports_timeout_without_polling() {
    let now: u128 = 1_000;
    assert_eq!(
        check_deadline(now, now, "test_poll"),
        Err(Error::Timeout {
            operation: "test_poll"
        })
    );
    assert_eq!(check_deadline(now, deadline_after(now, 1), "test_poll"), Ok(()));
}

#[test]
fn cqe_error_is_structured() {
    let error = validate_completion_status(9, 0, 42).unwrap_err();
    assert!(error.to_string().contains("status=9"));
}

#[test]
fn hybrid_policy_keeps_a_hot_phase_before_event_wait() {
    assert!(!should_wait_for_event(1));
    assert!(!should_wait_for_event(HOT_POLL_LIMIT));
    assert!(!should_wait_for_event(HOT_POLL_LIMIT));
    assert_eq!(EVENT_WAIT_TIMEOUT_MS, 10);
}

#[test]
fn duration_conversion_saturates_to_transport_counter_width() {
    assert_eq!(duration_ns_saturating(42), 42);
    assert_eq!(duration_ns_saturating(u128::MAX), u64::MAX);
}

#[test]
fn one_signaled_completion_retires_the_sends_before_it() {
    let mut pool = pool();
    let mut poller = CompletionPoller::new(5, 1, 16).unwrap();
    let (first, _) = post_send(&mut poller, &mut pool, 0, false);
    let (second, _) = post_send(&mut poller, &mut pool, 1, false);
    let (third, ctx) = post_send(&mut poller, &mut pool, 2, true);
    assert_eq!(poller.outstanding_send(), 3);
    let events = poller
        .route(record(ctx, false, 0), false, Ok(Vec::new()), &mut pool)
        .unwrap();
    assert_eq!(
        events,
        vec![
            CompletionEvent::SendCompleted { slot: first },
            CompletionEvent::SendCompleted { slot: second },
            CompletionEvent::SendCompleted { slot: third },
        ]
    );
    assert_eq!(poller.outstanding(), 0);
    assert_eq!(poller.stats().send_cqe, 1);
    assert_eq!(poller.stats().send_retired, 3);
    assert_eq!(pool.free_slots(SlotKind::Tx), 4);
}

#[test]
fn receive_completions_hand_out_the_bytes() {
    let mut pool = pool();
    let mut poller = CompletionPoller::new(5, 1, 16).unwrap();
    let slot = pool.allocate(SlotKind::Rx).unwrap();
    pool.mark_posted(slot, SlotKind::Rx).unwrap();
    let ctx = context(OperationType::Recv, slot);
    poller.track(ctx, Some(0), true).unwrap();
    assert!(poller.queue_is_active(true));
    let events = poller
        .route(record(ctx, true, 2), true, Ok(vec![8, 9]), &mut pool)
        .unwrap();
    assert_eq!(
        events,
        vec![CompletionEvent::RecvCompleted {
            slot,
            bytes: vec![8, 9]
        }]
    );
    assert_eq!(poller.stats().recv_cqe, 1);
    assert!(!poller.queue_is_active(true));
    assert_eq!(pool.slot_state(slot), Some(SlotState::Free));
}

#[test]
fn foreign_and_repeated_completions_are_refused() {
    let mut pool = pool();
    let mut poller = CompletionPoller::new(5, 1, 16).unwrap();
    let (_, ctx) = post_send(&mut poller, &mut pool, 0, true);
    assert!(poller
        .route(record(ctx, true, 0), true, Ok(Vec::new()), &mut pool)
        .is_err());
    let foreign = WrToken {
        connection_id: 6,
        generation: 1,
        operation: OperationType::Send,
        slot: SlotId::from_index(0),
    }
    .encode()
    .unwrap();
    assert!(poller
        .route(record(foreign, false, 0), false, Ok(Vec::new()), &mut pool)
        .is_err());
    assert!(poller
        .route(record(ctx, false, 0), false, Ok(Vec::new()), &mut pool)
        .is_ok());
    assert!(poller
        .route(record(ctx, false, 0), false, Ok(Vec::new()), &mut pool)
        .is_err());
}

#[test]
fn failed_completions_name_the_request() {
    let mut pool = pool();
    let mut poller = CompletionPoller::new(5, 1, 16).unwrap();
    let (_, ctx) = post_send(&mut poller, &mut pool, 11, true);
    let mut failed = record(ctx, false, 0);
    failed.status = 4;
    let error = poller
        .route(failed, false, Ok(Vec::new()), &mut pool)
        .unwrap_err();
    match error {
        Error::Completion {
            status, user_ctx, ..
        } => assert_eq!((status, user_ctx), (4, ctx)),
        other => panic!("unexpected {other:?}"),
    }
    assert_eq!(pool.free_slots(SlotKind::Tx), 4);
    assert_eq!(poller.stats().cqe_error, 1);
}

#[test]
fn requests_are_noted_once() {
    let mut pool = pool();
    let mut poller = CompletionPoller::new(5, 1, 16).unwrap();
    let (slot, ctx) = post_send(&mut poller, &mut pool, 0, true);
    assert!(poller.track(ctx, Some(1), true).is_err());
    let diagnostic = poller.diagnostic(OperationType::Send, &pool);
    assert_eq!(diagnostic.pending.len(), 1);
    assert_eq!(diagnostic.pending[0].slot, slot);
    assert_eq!(diagnostic.pending[0].state, SlotState::SendPosted);
    assert_eq!(diagnostic.last_completed_sequence, None);
}

#[test]
fn posts_are_counted_by_call_and_by_request() {
    let mut poller = CompletionPoller::new(5, 1, 16).unwrap();
    poller.record_post_call(OperationType::Send, 4);
    poller.record_post_call(OperationType::Send, 2);
    let expected = CompletionStats {
        send_post_calls: 2,
        send_post_list_max: 4,
        ..CompletionStats::default()
    };
    assert_eq!(poller.stats().send_post_calls, expected.send_post_calls);
    assert_eq!(poller.stats().send_post_list_max, expected.send_post_list_max);
}

#[test]
fn a_poller_needs_a_batch() {
    assert!(CompletionPoller::new(5, 1, 0).is_err());
}
