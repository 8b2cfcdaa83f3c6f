use std::collections::HashSet;

use urma_transport_lab::provider::FfiError;
use urma_transport_lab::rm_read_probe::{
    check_announced, check_capability, check_content, check_frame, decode_manifest,
    decode_read_descriptor, encode_frame, encode_manifest, encode_read_descriptor, expect_control,
    parent_report as read_parent_report, probe_bytes, BusyProbe, ProbeReads, ReadCapability,
    ReadCompletion, ReadDescriptorData, RmReadProbeConfig, BUSY_STATUS,
};
use urma_transport_lab::send_imm_probe::{
    check_sender, child_report, parent_report, probe_configs, probe_identity, probe_payload,
    validate_probe_payload, ImmEvent, ImmProbe,
};
use urma_transport_lab::{CompletionStats, Error};

fn read_config() -> RmReadProbeConfig {
    let mut config = RmReadProbeConfig::new("urma0", 0);
    config.transfer_bytes = 10;
    config.chunk_bytes = 4;
    config.queue_depth = 2;
    config
}

fn completion(user_ctx: u64, length: u32) -> ReadCompletion {
    ReadCompletion {
        status: 0,
        opcode: 6,
        user_ctx,
        completion_len: length,
        local_id: 9,
        event_kind: 0,
        is_recv: false,
        is_jetty: false,
        user_ctx_valid: true,
        remote_id_valid: false,
        imm_data_valid: false,
    }
}

#[test]
fn payload_is_deterministic_and_position_sensitive() {
    let left = probe_bytes(8192);
    let right = probe_bytes(8192);
    assert_eq!(left, right);
    assert_ne!(&left[..4096], &left[4096..]);
}

#[test]
fn config_rejects_zero_sizing() {
    let mut config = RmReadProbeConfig::new("urma0", 0);
    config.chunk_bytes = 0;
    assert!(config.validate().is_err());
}

#[test]
fn identities_are_unique_and_exercise_high_and_low_halves() {
    let identities = (0..256)
        .map(|ordinal| probe_identity(ordinal).expect("identity"))
        .collect::<Vec<_>>();
    assert_eq!(
        identities.iter().copied().collect::<HashSet<_>>().len(),
        256
    );
    assert!(identities.iter().all(|identity| identity >> 32 != 0));
    assert_eq!(identities[0], 0x0000_0001_0000_0002);
    assert_eq!(identities[2], 0xfedc_ba98_7654_3210);
}

#[test]
fn payload_binds_ordinal_to_full_identity() {
    let identity = probe_identity(17).expect("identity");
    let mut payload = probe_payload(17, identity);
    validate_probe_payload(17, identity, &payload).expect("valid payload");
    payload[63] ^= 1;
    assert!(validate_probe_payload(17, identity, &payload).is_err());
    assert!(validate_probe_payload(18, identity, &probe_payload(17, identity)).is_err());
}

#[test]
fn a_complete_probe_saw_every_message_once() {
    let mut probe = ImmProbe::new(3);
    for ordinal in [2usize, 0, 1] {
        assert!(probe.check_complete().is_err());
        let identity = probe_identity(ordinal).unwrap();
        probe
            .take(ImmEvent::Received {
                slot: ordinal + 10,
                bytes: probe_payload(ordinal, identity),
                imm_data: Some(identity),
            })
            .unwrap();
    }
    assert_eq!(probe.seen(), 3);
    assert!(probe.check_complete().is_ok());
    let stats = CompletionStats {
        recv_cqe: 3,
        ..CompletionStats::default()
    };
    let line = parent_report(&probe, stats);
    assert!(line.contains("\"messages\":3"), "{line}");
    assert!(line.contains("\"recvCqe\":3"), "{line}");
}

#[test]
fn probes_refuse_repeats_strangers_and_missing_values() {
    let identity = probe_identity(0).unwrap();
    let payload = probe_payload(0, identity);
    let mut probe = ImmProbe::new(2);
    assert!(probe.take(ImmEvent::Sent).is_err());
    assert!(probe
        .take(ImmEvent::Received {
            slot: 1,
            bytes: payload.clone(),
            imm_data: None
        })
        .is_err());
    assert!(probe
        .take(ImmEvent::Received {
            slot: 1,
            bytes: payload.clone(),
            imm_data: Some(1)
        })
        .is_err());
    let mut probe = ImmProbe::new(2);
    probe
        .take(ImmEvent::Received {
            slot: 1,
            bytes: payload.clone(),
            imm_data: Some(identity),
        })
        .unwrap();
    assert!(probe
        .take(ImmEvent::Received {
            slot: 2,
            bytes: payload,
            imm_data: Some(identity)
        })
        .is_err());
}

#[test]
fn the_sender_needs_every_completion_and_the_answer() {
    let stats = CompletionStats {
        send_retired: 4,
        ..CompletionStats::default()
    };
    assert!(check_sender(b"SEND_IMM_PROBE_ACK", stats, 4).is_ok());
    assert!(check_sender(b"SEND_IMM_PROBE_NAK", stats, 4).is_err());
    let error = check_sender(b"SEND_IMM_PROBE_ACK", stats, 5).unwrap_err();
    assert!(error.to_string().contains("retired=4 expected=5 errors=0"));
    assert!(child_report(4, stats).contains("\"messages\":4"));
    let (runtime, jetty) = probe_configs("urma0", 1, 4);
    assert_eq!(runtime.send_jfc_depth, 16);
    assert_eq!(runtime.buffer_pool.tx_slot_count, 4);
    assert_eq!((jetty.send_depth, jetty.recv_depth), (4, 4));
    assert_eq!((jetty.max_send_sge, jetty.max_recv_sge), (1, 1));
    assert_eq!(jetty.token, 0);
}

#[test]
fn reads_cover_the_transfer_and_drain() {
    let config = read_config();
    let mut reads = ProbeReads::new(&config);
    let mut pending = Vec::new();
    let mut covered = Vec::new();
    while !reads.is_complete() {
        while let Some(post) = reads.next_read() {
            let first = covered.is_empty();
            assert_eq!(reads.note_post(0, true), Ok(first));
            if first {
                reads
                    .note_busy(BusyProbe::Refused(FfiError::Status(BUSY_STATUS)))
                    .unwrap();
            }
            covered.push((post.offset, post.length));
            pending.push(post);
        }
        assert!(pending.len() <= 2);
        let post = pending.remove(0);
        reads.take(completion(post.user_ctx, post.length)).unwrap();
    }
    assert_eq!(covered, vec![(0, 4), (4, 4), (8, 2)]);
    assert!(reads.check_drained().is_ok());
    let report = reads.report(4096);
    assert_eq!(report.completions, 3);
    assert_eq!(report.completion_lengths, vec![2, 4]);
    assert!(report.to_json().contains("\"role\":\"child\""));
    assert!(read_parent_report(&config, 4096).to_json().contains("\"role\":\"parent\""));
}

#[test]
fn unknown_read_completions_are_refused() {
    let mut reads = ProbeReads::new(&read_config());
    let post = reads.next_read().unwrap();
    reads.note_post(0, true).unwrap();
    assert!(reads.take(completion(post.user_ctx + 7, 4)).is_err());
    let mut failed = completion(post.user_ctx, 4);
    failed.status = 3;
    assert!(reads.take(failed).is_err());
    assert!(reads.check_drained().is_err());
}

#[test]
fn a_segment_in_use_is_not_released() {
    let mut reads = ProbeReads::new(&read_config());
    assert!(reads.note_busy(BusyProbe::Released).is_err());
    assert!(reads
        .note_busy(BusyProbe::Refused(FfiError::Status(-22)))
        .is_err());
}

#[test]
fn read_descriptors_and_manifests_round_trip() {
    let descriptor = ReadDescriptorData {
        version: 1,
        eid: (0..16).collect(),
        uasid: 2,
        va: 3,
        length: 4,
        token_id: 5,
        access: 6,
        token_policy: 7,
    };
    let bytes = encode_read_descriptor(&descriptor);
    assert_eq!(decode_read_descriptor(&bytes), Ok(descriptor));
    assert!(decode_read_descriptor(&bytes[1..]).is_err());

    let source = probe_bytes(10);
    let manifest = encode_manifest(&read_config(), &source);
    let (transfer, chunk, digest) = decode_manifest(&manifest).unwrap();
    assert_eq!((transfer, chunk), (10, 4));
    assert!(check_content(&source, &digest).is_ok());
    assert!(check_content(&source[1..], &digest).is_err());
    assert!(decode_manifest(&manifest[1..]).is_err());
}

#[test]
fn read_probes_check_what_the_peer_announces() {
    let config = read_config();
    assert!(check_announced(&config, 10, 4, 10, 4096).is_ok());
    assert!(check_announced(&config, 11, 4, 11, 4096).is_err());
    assert!(check_announced(&config, 10, 4, 9, 4096).is_err());
    assert!(check_frame(131_073).is_err());
    assert_eq!(encode_frame(b"ab").unwrap(), vec![0, 0, 0, 2, b'a', b'b']);
    assert!(expect_control(b"READY", b"READY").is_ok());
    assert!(matches!(
        expect_control(b"READY", b"DONE"),
        Err(Error::Protocol(_))
    ));
    let capability = ReadCapability {
        transport_modes: 0,
        max_read_size: 4096,
        max_jfs_sge: 1,
        max_jfs_rsge: 1,
        max_jfs_depth: 128,
    };
    assert!(check_capability(&config, capability, true).is_err());
}

#[test]
fn payloads_beyond_a_probe_bind_their_message_too() {
    let identity = probe_identity(4095).unwrap();
    assert_ne!(probe_payload(4095, identity), probe_payload(70_000, identity));
    assert!(validate_probe_payload(70_000, identity, &probe_payload(70_000, identity)).is_ok());
}
