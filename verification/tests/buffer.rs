use urma_transport_lab::buffer::UrmaBufferPool;
use urma_transport_lab::{BufferPoolConfig, Error, SlotKind, SlotState, SlotStateSnapshot};

fn small_config() -> BufferPoolConfig {
    BufferPoolConfig {
        slot_size: 64,
        tx_slot_count: 2,
        rx_slot_count: 3,
        alignment: 64,
        alias_tx_slots: false,
    }
}

fn small_pool() -> UrmaBufferPool {
    UrmaBufferPool::create(small_config(), 7).unwrap()
}

#[test]
fn validates_fixed_slot_layout_without_urma() {
    let config = BufferPoolConfig {
        slot_size: 1024,
        tx_slot_count: 2,
        rx_slot_count: 3,
        alignment: 4096,
        alias_tx_slots: false,
    };
    assert_eq!(config.total_len(), Ok(5 * 1024));

    let aliased = BufferPoolConfig {
        alias_tx_slots: true,
        ..config
    };
    assert_eq!(aliased.total_len(), Ok(4 * 1024));
}

#[test]
fn rejects_invalid_layout_without_touching_urma() {
    let config = BufferPoolConfig {
        slot_size: 0,
        ..BufferPoolConfig::default()
    };
    assert!(matches!(
        config.total_len(),
        Err(Error::InvalidConfiguration(_))
    ));
}

#[test]
fn rejects_registered_pool_size_overflow() {
    let config = BufferPoolConfig {
        slot_size: usize::MAX,
        tx_slot_count: 1,
        rx_slot_count: 1,
        alignment: 4096,
        alias_tx_slots: false,
    };
    assert!(matches!(
        config.total_len(),
        Err(Error::InvalidConfiguration(_))
    ));
}

#[test]
fn slot_state_snapshot_counts_data_plane_states() {
    let mut snapshot = SlotStateSnapshot::default();
    for state in [
        SlotState::Free,
        SlotState::Allocated,
        SlotState::PostedRecv,
        SlotState::RecvCompleted,
        SlotState::SendPosted,
        SlotState::SendCompleted,
        SlotState::Posted,
    ] {
        snapshot.observe(state);
    }
    assert_eq!(snapshot.free, 1);
    assert_eq!(snapshot.allocated, 1);
    assert_eq!(snapshot.posted_recv, 1);
    assert_eq!(snapshot.recv_completed, 1);
    assert_eq!(snapshot.send_posted, 1);
    assert_eq!(snapshot.send_completed, 1);
    assert_eq!(snapshot.other, 1);
}

#[test]
fn slots_go_through_their_states_and_come_back() {
    let mut pool = small_pool();
    assert_eq!(pool.free_slots(SlotKind::Tx), 2);
    let tx = pool.allocate(SlotKind::Tx).unwrap();
    assert_eq!(pool.slot_state(tx), Some(SlotState::Allocated));
    assert_eq!(pool.write_tx(tx, b"abc").unwrap().1, 3);
    pool.mark_posted(tx, SlotKind::Tx).unwrap();
    assert_eq!(pool.slot_state(tx), Some(SlotState::SendPosted));
    assert!(pool.release(tx).is_err());
    pool.complete_send(tx).unwrap();
    assert_eq!(pool.slot_state(tx), Some(SlotState::SendCompleted));
    pool.release(tx).unwrap();
    assert_eq!(pool.slot_state(tx), Some(SlotState::Free));
    assert_eq!(pool.free_slots(SlotKind::Tx), 2);
    assert!(pool.complete_send(tx).is_err());
}

#[test]
fn an_exhausted_pool_hands_out_nothing() {
    let mut pool = small_pool();
    assert!(pool.allocate(SlotKind::Tx).is_some());
    assert!(pool.allocate(SlotKind::Tx).is_some());
    assert!(pool.allocate(SlotKind::Tx).is_none());
    assert!(pool.allocate(SlotKind::Rx).is_some());
}

#[test]
fn payloads_beyond_a_slot_are_refused() {
    let mut pool = small_pool();
    let tx = pool.allocate(SlotKind::Tx).unwrap();
    assert!(pool.write_tx(tx, &[0u8; 65]).is_err());
    let rx = pool.allocate(SlotKind::Rx).unwrap();
    pool.mark_posted(rx, SlotKind::Rx).unwrap();
    assert!(pool.recv_completion_layout(rx, 65).is_err());
    assert_eq!(pool.recv_completion_layout(rx, 64).unwrap().1, 64);
}

#[test]
fn received_bytes_are_copied_out_before_the_slot_is_free() {
    let mut pool = small_pool();
    let rx = pool.allocate(SlotKind::Rx).unwrap();
    pool.mark_posted(rx, SlotKind::Rx).unwrap();
    let bytes = pool.complete_recv(rx, 3, Ok(vec![1, 2, 3])).unwrap();
    assert_eq!(bytes, vec![1, 2, 3]);
    assert_eq!(pool.slot_state(rx), Some(SlotState::RecvCompleted));
    pool.release(rx).unwrap();
    assert_eq!(pool.slot_state(rx), Some(SlotState::Free));
    assert_eq!(pool.free_slots(SlotKind::Rx), 3);
}

#[test]
fn undone_posts_leave_the_slot_allocated() {
    let mut pool = small_pool();
    let rx = pool.allocate(SlotKind::Rx).unwrap();
    pool.mark_posted(rx, SlotKind::Rx).unwrap();
    pool.rollback_post(rx, SlotKind::Rx).unwrap();
    assert_eq!(pool.slot_state(rx), Some(SlotState::Allocated));
    pool.release(rx).unwrap();
    assert_eq!(pool.slot_state(rx), Some(SlotState::Free));
}

#[test]
fn leased_windows_keep_their_slots_until_they_are_recycled() {
    let mut pool = small_pool();
    let mut completions = Vec::new();
    for sequence in 0..3u64 {
        let rx = pool.allocate(SlotKind::Rx).unwrap();
        pool.mark_posted(rx, SlotKind::Rx).unwrap();
        let length = if sequence == 2 { 5 } else { 64 };
        pool.complete_recv_leased(rx, length).unwrap();
        completions.push((rx, Some(sequence), length));
    }
    let lease = pool.lease_completed_recv_window(&completions).unwrap();
    assert_eq!(lease.len(), 64 + 64 + 5);
    assert_eq!(lease.chunks().len(), 3);
    assert_eq!(lease.chunks()[2].sequence, Some(2));
    assert_eq!(pool.free_slots(SlotKind::Rx), 0);
    assert_eq!(pool.slot_state(completions[0].0), Some(SlotState::Leased));
    pool.stop();
    assert!(pool.close().is_err());
    assert_eq!(pool.recycle_recv_lease(lease), Ok(3));
    assert_eq!(pool.free_slots(SlotKind::Rx), 3);
    assert_eq!(pool.close(), Ok(true));
}

#[test]
fn empty_windows_are_refused() {
    let mut pool = small_pool();
    assert!(pool.lease_completed_recv_window(&[]).is_err());
}

#[test]
fn leases_go_back_to_their_own_pool_only() {
    let mut pool = small_pool();
    let mut other = UrmaBufferPool::create(small_config(), 8).unwrap();
    let rx = pool.allocate(SlotKind::Rx).unwrap();
    pool.mark_posted(rx, SlotKind::Rx).unwrap();
    pool.complete_recv_leased(rx, 8).unwrap();
    let lease = pool
        .lease_completed_recv_window(&[(rx, Some(0), 8)])
        .unwrap();
    assert!(other.recycle_recv_lease(lease).is_err());
}

#[test]
fn prepared_batches_cover_one_contiguous_range() {
    let mut pool = small_pool();
    let batch = pool.prepare_tx_batch(&[64, 10]).unwrap();
    assert_eq!(batch.len(), 2);
    assert_eq!(batch.range().1, 74);
    assert_eq!(batch.layout(0).2, 64);
    assert_eq!(batch.layout(1).1, batch.layout(0).1 + 64);
    assert_eq!(pool.free_slots(SlotKind::Tx), 0);
    pool.discard_tx_batch(batch).unwrap();
    assert_eq!(pool.free_slots(SlotKind::Tx), 2);
    assert!(pool.prepare_tx_batch(&[]).is_err());
    assert!(pool.prepare_tx_batch(&[65]).is_err());
}

#[test]
fn aliased_pools_share_one_send_slot() {
    let config = BufferPoolConfig {
        alias_tx_slots: true,
        ..small_config()
    };
    let mut pool = UrmaBufferPool::create(config, 1).unwrap();
    assert_eq!(pool.registered_len(), 4 * 64);
    assert!(pool.prepare_aliased_tx(b"fixed").is_ok());
    let first = pool.allocate(SlotKind::Tx).unwrap();
    let second = pool.allocate(SlotKind::Tx).unwrap();
    assert_ne!(first, second);
    assert_eq!(
        pool.aliased_tx_layout(first, 5).unwrap(),
        pool.aliased_tx_layout(second, 5).unwrap()
    );
    assert!(small_pool().prepare_aliased_tx(b"fixed").is_err());
}

#[test]
fn a_stopped_pool_hands_out_nothing() {
    let mut pool = small_pool();
    pool.stop();
    assert!(!pool.is_accepting());
    assert!(pool.allocate(SlotKind::Rx).is_none());
}

#[test]
fn aliased_pools_refuse_normal_writes() {
    let config = BufferPoolConfig {
        alias_tx_slots: true,
        ..small_config()
    };
    let mut pool = UrmaBufferPool::create(config, 1).unwrap();
    let slot = pool.allocate(SlotKind::Tx).unwrap();
    assert!(matches!(
        pool.write_tx(slot, b"normal"),
        Err(Error::Protocol(_))
    ));
    assert_eq!(pool.slot_state(slot), Some(SlotState::Allocated));
    pool.release(slot).unwrap();
    assert!(pool.prepare_aliased_tx(b"shared").is_ok());

    let mut plain = small_pool();
    let slot = plain.allocate(SlotKind::Tx).unwrap();
    assert_eq!(plain.write_tx(slot, b"normal").unwrap().1, 6);
}
