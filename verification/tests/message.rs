use urma_transport_lab::message::{
    DATA_HEADER_LEN, DATA_VERSION, MAX_DATA_PAYLOAD_LEN, MAX_DIGEST_VALUE_LEN, SHA256_DIGEST_LEN,
};
use urma_transport_lab::{
    DigestAlgorithm, DigestDescriptor, IntegrationMessageBodyV3, IntegrationMessageTypeV3,
    IntegrationMessageV3, Message, MessageBody, MessageType,
};

fn set_payload_len(frame: &mut [u8], length: usize) {
    frame[20..24].copy_from_slice(&(length as u32).to_be_bytes());
}

fn crc32_metadata(offset: u64, total_length: u64) -> IntegrationMessageV3 {
    IntegrationMessageV3::metadata(
        9,
        offset,
        total_length,
        DigestDescriptor::crc32(1_475_635_037),
    )
}

#[test]
fn ping_and_pong_round_trip() {
    for message in [Message::ping(), Message::pong()] {
        assert_eq!(Message::decode(&message.encode().unwrap()), Ok(message));
    }
}

#[test]
fn m4_messages_round_trip() {
    let digest = [7; SHA256_DIGEST_LEN];
    let messages = [
        Message::request(9, "task-a", 4),
        Message::metadata(9, 123, 456, digest),
        Message::data(9, 0, vec![1, 2, 3]),
        Message::end(9, 1, 3),
        Message::error(9, 42, "not found"),
    ];
    for message in messages {
        assert_eq!(Message::decode(&message.encode().unwrap()), Ok(message));
    }
}

#[test]
fn integration_v3_crc32_metadata_round_trip_with_nonzero_offset() {
    let message = crc32_metadata(4096, 512 * 1024);
    let encoded = message.encode().unwrap();
    assert_eq!(u16::from_be_bytes(encoded[4..6].try_into().unwrap()), 3);
    assert_eq!(
        u16::from_be_bytes(encoded[40..42].try_into().unwrap()),
        DigestAlgorithm::CRC32_WIRE_VALUE
    );
    assert_eq!(IntegrationMessageV3::decode(&encoded), Ok(message));
}

#[test]
fn integration_v3_metadata_accepts_zero_length_piece() {
    let message = crc32_metadata(0, 0);
    assert_eq!(
        IntegrationMessageV3::decode(&message.encode().unwrap()),
        Ok(message)
    );
}

#[test]
fn integration_v3_metadata_accepts_max_supported_digest_length() {
    let digest = DigestDescriptor::new(DigestAlgorithm::Sha256, "a".repeat(64)).unwrap();
    assert_eq!(digest.value.len(), MAX_DIGEST_VALUE_LEN);
    let message = IntegrationMessageV3::metadata(1, u64::MAX, 0, digest);
    assert_eq!(
        IntegrationMessageV3::decode(&message.encode().unwrap()),
        Ok(message)
    );
}

#[test]
fn integration_v3_rejects_truncated_metadata() {
    let mut bytes = crc32_metadata(0, 1).encode().unwrap();
    bytes.pop();
    let payload_len = bytes.len() - DATA_HEADER_LEN;
    set_payload_len(&mut bytes, payload_len);
    assert!(IntegrationMessageV3::decode(&bytes).is_err());

    let mut truncated_prefix = crc32_metadata(0, 1).encode().unwrap();
    truncated_prefix.truncate(DATA_HEADER_LEN + 20 - 1);
    let payload_len = truncated_prefix.len() - DATA_HEADER_LEN;
    set_payload_len(&mut truncated_prefix, payload_len);
    assert!(IntegrationMessageV3::decode(&truncated_prefix).is_err());
}

#[test]
fn integration_v3_rejects_unknown_digest_algorithm() {
    let mut bytes = crc32_metadata(0, 1).encode().unwrap();
    bytes[40..42].copy_from_slice(&99u16.to_be_bytes());
    assert!(IntegrationMessageV3::decode(&bytes).is_err());
}

#[test]
fn integration_v3_rejects_digest_length_mismatch() {
    let mut bytes = crc32_metadata(0, 1).encode().unwrap();
    let length = u16::from_be_bytes(bytes[42..44].try_into().unwrap());
    bytes[42..44].copy_from_slice(&(length + 1).to_be_bytes());
    assert!(IntegrationMessageV3::decode(&bytes).is_err());
}

#[test]
fn integration_v3_rejects_metadata_trailing_bytes() {
    let mut bytes = crc32_metadata(0, 1).encode().unwrap();
    bytes.push(0);
    let payload_len = bytes.len() - DATA_HEADER_LEN;
    set_payload_len(&mut bytes, payload_len);
    assert!(IntegrationMessageV3::decode(&bytes).is_err());
}

#[test]
fn integration_v3_rejects_wrong_protocol_version() {
    let mut bytes = crc32_metadata(0, 1).encode().unwrap();
    bytes[4..6].copy_from_slice(&DATA_VERSION.to_be_bytes());
    assert!(IntegrationMessageV3::decode(&bytes).is_err());
}

#[test]
fn integration_v3_non_metadata_messages_round_trip() {
    let messages = [
        IntegrationMessageV3::request(9, "task-a", 4),
        IntegrationMessageV3::data(9, 0, vec![1, 2, 3]),
        IntegrationMessageV3::end(9, 1, 3),
        IntegrationMessageV3::error(9, 42, "not found"),
    ];
    for message in messages {
        assert_eq!(
            IntegrationMessageV3::decode(&message.encode().unwrap()),
            Ok(message)
        );
    }
}

#[test]
fn integration_v3_supports_one_mib_data_payload() {
    let message = IntegrationMessageV3::data(7, 0, vec![0x5a; 1024 * 1024]);
    let encoded = message.encode().unwrap();
    assert_eq!(encoded.len(), DATA_HEADER_LEN + 1024 * 1024);
    assert_eq!(IntegrationMessageV3::decode(&encoded), Ok(message));
}

#[test]
fn v2_and_v3_decoders_do_not_reinterpret_each_other() {
    let v2 = Message::metadata(9, 0, 0, [0; SHA256_DIGEST_LEN])
        .encode()
        .unwrap();
    let v3 = crc32_metadata(0, 0).encode().unwrap();
    assert!(IntegrationMessageV3::decode(&v2).is_err());
    assert!(Message::decode(&v3).is_err());
}

#[test]
fn digest_descriptor_matches_dragonfly_crc32_string() {
    let digest = DigestDescriptor::crc32(1_475_635_037);
    assert_eq!(digest.external_string().unwrap(), "crc32:1475635037");
    assert!(DigestDescriptor::new(DigestAlgorithm::Crc32, "").is_err());
    assert!(DigestDescriptor::new(DigestAlgorithm::Crc32, "01").is_err());
    assert!(DigestDescriptor::new(DigestAlgorithm::Crc32, "4294967296").is_err());
    assert!(DigestDescriptor::new(DigestAlgorithm::Sha256, "A".repeat(64)).is_err());
    assert!(DigestDescriptor::new(DigestAlgorithm::Sha256, "a".repeat(65)).is_err());
}

#[test]
fn rejects_payload_length_mismatch() {
    let mut bytes = Message::ping().encode().unwrap();
    bytes[23] += 1;
    assert!(Message::decode(&bytes).is_err());
}

#[test]
fn protocol_loopback_runs_one_and_one_hundred_rounds() {
    for rounds in [1, 100] {
        for _ in 0..rounds {
            let ping = Message::decode(&Message::ping().encode().unwrap()).unwrap();
            ping.validate_ping().unwrap();
            let pong = Message::decode(&Message::pong().encode().unwrap()).unwrap();
            pong.validate_pong().unwrap();
        }
    }
}

#[test]
fn frames_are_laid_out_byte_by_byte() {
    assert_eq!(
        Message::end(0x0102_0304_0506_0708, 2, 5).encode().unwrap(),
        vec![
            0x55, 0x52, 0x4d, 0x44, 0, 2, 0, 6, 1, 2, 3, 4, 5, 6, 7, 8, 0, 0, 0, 2, 0, 0, 0, 12, 0,
            0, 0, 0, 0, 0, 0, 5, 0, 0, 0, 2
        ]
    );
}

#[test]
fn oversized_and_empty_payloads_are_refused() {
    assert!(Message::data(1, 0, vec![0; MAX_DATA_PAYLOAD_LEN]).encode().is_ok());
    assert!(Message::data(1, 0, vec![0; MAX_DATA_PAYLOAD_LEN + 1]).encode().is_err());
    assert!(Message::data(1, 0, Vec::new()).encode().is_err());
    assert!(Message::request(1, "", 0).encode().is_err());
    assert!(Message::error(1, 5, "").encode().is_err());
    assert!(IntegrationMessageV3::request(1, "", 0).encode().is_err());
}

#[test]
fn frames_with_foreign_headers_are_refused() {
    let good = Message::ping().encode().unwrap();
    assert!(Message::decode(&good[..10]).is_err());
    let mut magic = good.clone();
    magic[0] = 0;
    assert!(Message::decode(&magic).is_err());
    let mut version = good.clone();
    version[5] = 9;
    assert!(Message::decode(&version).is_err());
    let mut kind = good.clone();
    kind[7] = 8;
    assert!(Message::decode(&kind).is_err());
}

#[test]
fn texts_that_are_not_utf8_are_refused() {
    let mut bytes = Message::request(9, "task-a", 4).encode().unwrap();
    let last = bytes.len() - 1;
    bytes[last] = 0xff;
    let error = Message::decode(&bytes).unwrap_err();
    assert!(error.to_string().contains("Request task_id is not UTF-8"));
}

#[test]
fn messages_name_their_type() {
    assert_eq!(Message::ping().message_type(), MessageType::Ping);
    assert_eq!(
        Message::data(1, 0, vec![1]).body,
        MessageBody::Data(vec![1])
    );
    let message = IntegrationMessageV3::data(1, 0, vec![1]);
    assert_eq!(message.message_type(), IntegrationMessageTypeV3::Data);
    assert_eq!(message.body, IntegrationMessageBodyV3::Data(vec![1]));
    assert!(Message::pong().validate_ping().is_err());
    assert!(Message::ping().validate_pong().is_err());
}
