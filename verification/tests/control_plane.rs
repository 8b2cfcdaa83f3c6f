use urma_transport_lab::connection::closing::CloseStep;
use urma_transport_lab::jetty::UrmaJetty;
use urma_transport_lab::oob::{
    decode_hello, encode_hello, validate_peer_capability, wait_for_peer_close, Frame,
    HandshakeStep, MessageType, Role, MAX_OOB_PAYLOAD_LEN, OOB_MAGIC, OOB_VERSION,
};
use urma_transport_lab::provider::{CompletionRecord, FfiError};
use urma_transport_lab::runtime::{
    rollback_startup, validate_config, validate_jetty_config, CapabilityWire, ProcessGuard,
    Resource, StartupStage,
};
use urma_transport_lab::wr::{OperationType, ReceiveCredit, WrToken};
use urma_transport_lab::{
    abi_baseline, BufferPoolConfig, DeviceEid, Error, JettyConfig, JettyDescriptor, RuntimeConfig,
    SlotId, SlotKind, UrmaDeviceCapability, UrmaRuntime, JETTY_DESCRIPTOR_VERSION,
    MAX_JETTY_DESCRIPTOR_LEN,
};

fn descriptor() -> JettyDescriptor {
    JettyDescriptor {
        version: JETTY_DESCRIPTOR_VERSION,
        transport_type: 0,
        eid_index: 3,
        jetty_id: 42,
        opaque_len: 4,
        opaque_data: vec![1, 2, 3, 4],
    }
}

fn capability() -> UrmaDeviceCapability {
    UrmaDeviceCapability {
        device_name: "urma0".to_string(),
        transport_type: 0,
        selected_eid_index: 0,
        eids: vec![DeviceEid {
            index: 0,
            bytes: vec![0; 16],
        }],
        max_jfc: 16,
        max_jfs: 16,
        max_jfr: 16,
        max_jetty: 16,
        max_jfc_depth: 4096,
        max_jfs_depth: 1024,
        max_jfr_depth: 1024,
        max_jfs_inline_len: 0,
        max_jfs_sge: 4,
        max_jfs_rsge: 4,
        max_jfr_sge: 4,
        max_msg_size: 1 << 20,
        transport_modes: 7,
        page_size_cap: 4096,
    }
}

fn encoded_header(magic: u32, version: u16, length: u32) -> Vec<u8> {
    let mut bytes = Vec::new();
    bytes.extend_from_slice(&magic.to_be_bytes());
    bytes.extend_from_slice(&version.to_be_bytes());
    bytes.extend_from_slice(&MessageType::Hello.wire_value().to_be_bytes());
    bytes.extend_from_slice(&length.to_be_bytes());
    bytes
}

#[test]
fn descriptor_round_trip() {
    let descriptor = descriptor();
    let bytes = descriptor.serialize().expect("serialize");
    assert_eq!(JettyDescriptor::deserialize(&bytes), Ok(descriptor));
}

#[test]
fn descriptor_rejects_invalid_version() {
    let mut descriptor = descriptor();
    descriptor.version += 1;
    assert!(descriptor.serialize().is_err());
}

#[test]
fn descriptor_rejects_oversized_payload() {
    let descriptor = JettyDescriptor {
        opaque_len: (MAX_JETTY_DESCRIPTOR_LEN + 1) as u32,
        opaque_data: vec![0; MAX_JETTY_DESCRIPTOR_LEN + 1],
        ..descriptor()
    };
    assert!(descriptor.validate().is_err());
}

#[test]
fn descriptor_rejects_truncated_and_trailing_bytes() {
    let bytes = descriptor().serialize().unwrap();
    assert!(JettyDescriptor::deserialize(&bytes[..bytes.len() - 1]).is_err());
    let mut longer = bytes.clone();
    longer.push(0);
    assert!(JettyDescriptor::deserialize(&longer).is_err());
    assert!(JettyDescriptor::deserialize(&[]).is_err());
}

#[test]
fn rejects_invalid_magic() {
    assert!(Frame::decode(&encoded_header(0, OOB_VERSION, 0)).is_err());
}

#[test]
fn rejects_invalid_version() {
    assert!(Frame::decode(&encoded_header(OOB_MAGIC, OOB_VERSION + 1, 0)).is_err());
}

#[test]
fn rejects_oversized_payload_before_allocation() {
    assert!(Frame::decode(&encoded_header(
        OOB_MAGIC,
        OOB_VERSION,
        (MAX_OOB_PAYLOAD_LEN + 1) as u32,
    ))
    .is_err());
    assert!(Frame::read_header(&encoded_header(
        OOB_MAGIC,
        OOB_VERSION,
        (MAX_OOB_PAYLOAD_LEN + 1) as u32,
    ))
    .is_err());
    assert_eq!(
        Frame::read_header(&encoded_header(OOB_MAGIC, OOB_VERSION, 5)),
        Ok((MessageType::Hello, 5))
    );
}

#[test]
fn frame_and_capability_use_explicit_wire_encoding() {
    let capability = CapabilityWire {
        transport_type: 3,
        eid_index: 7,
        max_jfc_depth: 64,
        max_jfs_depth: 63,
        max_jfr_depth: 62,
        max_jfs_sge: 2,
        max_jfr_sge: 1,
        max_msg_size: 4096,
        transport_modes: 4,
    };
    let mut payload = vec![Role::Child.wire_value()];
    capability.encode(&mut payload);
    assert_eq!(Role::try_from(payload[0]), Ok(Role::Child));
    assert_eq!(CapabilityWire::decode(&payload[1..]), Ok(capability));

    let frame = Frame {
        message_type: MessageType::Hello,
        payload,
    };
    let bytes = frame.encode().expect("encode frame");
    let decoded = Frame::decode(&bytes).expect("decode frame");
    assert_eq!(decoded.message_type, MessageType::Hello);
    assert_eq!(decoded.payload[0], Role::Child.wire_value());
}

#[test]
fn hello_carries_capability_and_descriptor() {
    let local = CapabilityWire::from_capability(&capability());
    let own = JettyDescriptor {
        eid_index: local.eid_index,
        ..descriptor()
    };
    let payload = encode_hello(Role::Child, &local, &own).unwrap();
    assert_eq!(decode_hello(&payload, Role::Child, &local), Ok((local, own)));
    let foreign = encode_hello(Role::Child, &local, &descriptor()).unwrap();
    assert!(decode_hello(&foreign, Role::Child, &local).is_err());
    assert!(decode_hello(&payload, Role::Parent, &local).is_err());
    assert!(decode_hello(&payload[..10], Role::Child, &local).is_err());
}

#[test]
fn peers_of_another_transport_are_refused() {
    let local = CapabilityWire::from_capability(&capability());
    let peer = CapabilityWire {
        transport_type: local.transport_type + 1,
        ..local
    };
    assert!(validate_peer_capability(&local, &peer).is_err());
    assert!(validate_peer_capability(&local, &local).is_ok());
}

#[test]
fn handshakes_end_ready_on_both_sides() {
    for role in [Role::Parent, Role::Child] {
        let mut steps = Vec::new();
        let mut index = 0usize;
        while let Some(step) = role.step(index) {
            steps.push(step);
            index += 1;
        }
        assert_eq!(steps.last(), Some(&HandshakeStep::MarkReady));
        assert!(steps.contains(&HandshakeStep::Attach));
    }
    assert!(wait_for_peer_close(0).is_ok());
    assert!(wait_for_peer_close(1).is_err());
}

#[test]
fn unexpected_frames_are_refused() {
    let frame = Frame {
        message_type: MessageType::Ready,
        payload: Vec::new(),
    };
    assert!(frame.expect_frame(MessageType::Hello).is_err());
}

#[test]
fn user_ctx_round_trip_has_no_pointer() {
    let token = WrToken {
        connection_id: 9,
        generation: 2,
        operation: OperationType::Recv,
        slot: SlotId::from_index(1234),
    };
    assert_eq!(WrToken::decode(token.encode().unwrap()), Ok(token));
}

#[test]
fn send_before_post_recv_is_rejected() {
    let credit = ReceiveCredit::default();
    assert!(credit.require_before_send().is_err());
}

#[test]
fn send_after_a_posted_receive_is_allowed() {
    let mut credit = ReceiveCredit::default();
    credit.posted();
    assert_eq!(credit.current(), 1);
    credit.completed();
    assert_eq!(credit.current(), 0);
    assert!(credit.require_before_send().is_ok());
}

#[test]
fn runtime_config_keeps_device_selection_and_m1_defaults() {
    let config = RuntimeConfig::new("urma0", 2);
    assert_eq!(config.device_name, "urma0");
    assert_eq!(config.eid_index, 2);
    assert_eq!(config.send_jfc_depth, 4096);
    assert_eq!(config.recv_jfc_depth, 4096);
    assert_eq!(config.buffer_pool, BufferPoolConfig::default());
}

#[test]
fn feature_off_reports_clear_error_without_umdk() {
    let error = UrmaRuntime::start(RuntimeConfig::new("urma0", 0)).err();
    assert_eq!(error, Some(Error::FeatureDisabled));
    assert_eq!(abi_baseline(), Err(Error::FeatureDisabled));
}

#[test]
fn feature_off_does_not_require_umdk_runtime() {
    let result = UrmaRuntime::start(RuntimeConfig::new("no-umdk-required", 0));
    assert!(matches!(result, Err(Error::FeatureDisabled)));
}

#[test]
fn creation_failure_rolls_back_process_guard() {
    let mut guard = ProcessGuard::new();
    assert!(guard.acquire().is_ok());
    let failed = StartupStage::Open.advance(Err(FfiError::NullHandle));
    let error = rollback_startup(failed.unwrap_err(), Vec::new());
    guard.settle_startup(Some(&error));
    let second = guard.acquire().err();
    assert!(!matches!(second, Some(Error::AlreadyInitialized)));
}

#[test]
fn a_second_runtime_is_refused_while_the_first_lives() {
    let mut guard = ProcessGuard::new();
    assert!(guard.acquire().is_ok());
    assert_eq!(guard.acquire(), Err(Error::AlreadyInitialized));
    guard.settle_shutdown(true);
    assert!(guard.acquire().is_ok());
}

#[test]
fn startup_is_rolled_back_in_reverse_order() {
    assert!(StartupStage::Open.rollback_order().is_empty());
    assert_eq!(
        StartupStage::RegisterSegment.rollback_order(),
        vec![
            Resource::RecvJfc,
            Resource::SendJfc,
            Resource::Jfce,
            Resource::Native
        ]
    );
    let mut stage = StartupStage::Open;
    for _ in 0..7 {
        stage = stage.advance(Ok(())).unwrap();
    }
    assert_eq!(stage, StartupStage::Ready);
}

#[test]
fn unclean_rollbacks_name_what_failed() {
    let primary = StartupStage::CreateSendJfc
        .advance(Err(FfiError::Status(-12)))
        .unwrap_err();
    let error = rollback_startup(primary, vec![(Resource::Jfce, Err(FfiError::Status(-5)))]);
    match error {
        Error::StartupRollback {
            cleanup_failures, ..
        } => assert_eq!(cleanup_failures.len(), 1),
        other => panic!("unexpected {other:?}"),
    }
}

#[test]
fn configurations_are_held_to_the_device() {
    let mut config = RuntimeConfig::new("urma0", 0);
    assert!(validate_config(&config, &capability()).is_ok());
    config.send_jfc_depth = 4097;
    assert!(validate_config(&config, &capability()).is_err());
    config.send_jfc_depth = 0;
    assert!(validate_config(&config, &capability()).is_err());
    let mut jetty = JettyConfig::default();
    assert!(validate_jetty_config(&jetty, &capability()).is_ok());
    jetty.send_depth = 1025;
    assert!(validate_jetty_config(&jetty, &capability()).is_err());
}

#[test]
fn a_started_runtime_owns_its_slots() {
    let mut runtime =
        UrmaRuntime::started(RuntimeConfig::new("urma0", 0), capability(), 9).unwrap();
    assert_eq!(runtime.jfc_depths(), (4096, 4096));
    assert!(runtime.registered_memory_layout().is_some());
    let slot = runtime.allocate_slot(SlotKind::Tx).unwrap();
    assert!(runtime.release_slot(slot).is_ok());
    assert!(runtime.release_slot(slot).is_err());
}

#[test]
fn a_jetty_is_imported_before_it_is_bound() {
    let mut jetty = UrmaJetty::create(&JettyConfig::default().with_token(77), Ok(())).unwrap();
    assert_eq!(jetty.token(), 77);
    assert!(jetty.require_imported().is_err());
    jetty.import(Ok(())).unwrap();
    assert!(jetty.require_imported().is_ok());
    jetty.bind(Ok(())).unwrap();
    assert!(jetty.needs_unbind());
    let mut failures = Vec::new();
    jetty.unbind(Err(FfiError::Status(-1)), &mut failures);
    assert_eq!(failures.len(), 1);
    assert!(UrmaJetty::close(failures).is_err());
    assert!(UrmaJetty::create(&JettyConfig::default(), Err(FfiError::NullHandle)).is_err());
}

#[test]
fn refused_connections_take_no_identity() {
    let mut runtime =
        UrmaRuntime::started(RuntimeConfig::new("urma0", 0), capability(), 9).unwrap();
    let jetty = JettyConfig::default();
    let first = runtime.begin_connection(&jetty).unwrap();
    let mut too_deep = JettyConfig::default();
    too_deep.send_depth = 1025;
    assert!(runtime.begin_connection(&too_deep).is_err());
    assert_eq!(runtime.begin_connection(&jetty).unwrap(), first + 1);
    runtime.shutdown().unwrap();
    assert!(runtime.begin_connection(&jetty).is_err());
}

#[test]
fn shutdown_failures_stand_in_closing_order() {
    let mut runtime =
        UrmaRuntime::started(RuntimeConfig::new("urma0", 0), capability(), 9).unwrap();
    runtime.shutdown().unwrap();
    let pool = Error::InvalidConfiguration("leases".to_string());
    let pool_text = pool.to_string();
    let closings = vec![
        (Resource::RecvJfc, Ok(())),
        (Resource::Jfce, Err(FfiError::Status(-2))),
        (Resource::Native, Err(FfiError::Status(-1))),
    ];
    match runtime.close(closings, Some(pool)) {
        Err(Error::Shutdown { failures }) => {
            assert_eq!(failures.len(), 3);
            assert!(failures[0].contains("delete_jfce"));
            assert_eq!(failures[1], pool_text);
            assert!(failures[2].contains("runtime_close"));
        }
        other => panic!("unexpected {other:?}"),
    }
}

#[test]
fn a_closing_connection_is_drained() {
    let mut runtime =
        UrmaRuntime::started(RuntimeConfig::new("urma0", 0), capability(), 9).unwrap();
    let jetty = JettyConfig::default();
    let id = runtime.begin_connection(&jetty).unwrap();
    let mut connection = runtime.create_connection(&jetty, id, Ok(())).unwrap();
    connection.begin_import(&descriptor()).unwrap();
    connection.import(Ok(())).unwrap();
    connection.import_and_bind(Ok(())).unwrap();
    let posts: Vec<u64> = (0..2)
        .map(|_| {
            let request = connection.plan_recv().unwrap();
            connection.recv_ready(Ok(())).unwrap();
            request.user_ctx
        })
        .collect();
    connection.mark_ready().unwrap();
    assert_eq!(connection.receive_credit(), 2);
    assert_eq!(connection.begin_close(), CloseStep::Drain);
    assert!(connection.begin_poll(5).is_err());

    let mut failures = Vec::new();
    let mut now = 10;
    for user_ctx in posts {
        assert!(connection.drain_goes_on(now, 100));
        let previous = connection.begin_drain_poll(now);
        let flushed = CompletionRecord {
            status: 7,
            opcode: 0,
            user_ctx,
            completion_len: 0,
            is_recv: true,
            is_jetty: true,
            user_ctx_valid: true,
        };
        let routed = connection.drain_queue(true, Ok(vec![(flushed, Ok(Vec::new()))]));
        assert!(matches!(routed, Err(Error::Completion { status: 7, .. })));
        connection.end_drain_poll(0, previous, now + 1);
        urma_transport_lab::UrmaConnection::note_drain(&mut failures, &routed);
        now += 10;
    }
    assert!(failures.is_empty());
    assert_eq!(connection.outstanding_recv(), 0);
    assert_eq!(connection.receive_credit(), 2);
    assert!(!connection.drain_goes_on(now, 100));
    assert!(connection.finish_drain(failures).is_ok());
    assert_eq!(connection.begin_close(), CloseStep::CloseJetty);

    let failed = connection.drain_queue(true, Err(FfiError::Status(-5)));
    let mut failures = Vec::new();
    urma_transport_lab::UrmaConnection::note_drain(&mut failures, &failed);
    assert_eq!(failures.len(), 1);
}
