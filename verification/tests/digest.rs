use urma_transport_lab::digest::{Crc32Reader, ReadOutcome};
use urma_transport_lab::{
    crc32_bytes, crc32_reader, format_crc32_digest, parse_crc32_digest, Crc32Hasher, Error,
};

#[test]
fn crc32_empty_payload_matches_dragonfly_representation() {
    assert_eq!(crc32_bytes(b""), 0);
    assert_eq!(format_crc32_digest(0), "crc32:0");
}

#[test]
fn crc32_known_payload_matches_ieee_vector() {
    assert_eq!(crc32_bytes(b"123456789"), 3_421_780_262);
    assert_eq!(
        format_crc32_digest(crc32_bytes(b"123456789")),
        "crc32:3421780262"
    );
}

#[test]
fn streaming_and_one_shot_crc32_match() {
    let bytes = b"Dragonfly Piece over URMA";
    let mut hasher = Crc32Hasher::new();
    for chunk in bytes.chunks(3) {
        hasher.update(chunk);
    }
    assert_eq!(hasher.finalize(), crc32_bytes(bytes));

    let (reader_digest, length) = crc32_reader(bytes).unwrap();
    assert_eq!(reader_digest, crc32_bytes(bytes));
    assert_eq!(length, bytes.len() as u64);
}

#[test]
fn independently_hashed_ranges_combine_in_order() {
    let mut first = Crc32Hasher::new();
    first.update(b"parallel ");
    let mut second = Crc32Hasher::new();
    second.update(b"windows");
    first.combine(&second);
    assert_eq!(first.finalize(), crc32_bytes(b"parallel windows"));
}

#[test]
fn crc32_format_parse_round_trip_is_canonical() {
    for value in [0, 1, 1_475_635_037, u32::MAX] {
        let formatted = format_crc32_digest(value);
        assert_eq!(parse_crc32_digest(&formatted), Ok(value));
    }
    for invalid in ["", "crc32:", "crc32:00", "crc32:-1", "CRC32:1", "1"] {
        assert!(parse_crc32_digest(invalid).is_err(), "accepted {invalid}");
    }
}

#[test]
fn interrupted_reads_are_repeated_and_failed_reads_are_reported() {
    let mut reader = Crc32Reader::new();
    assert_eq!(reader.observe(ReadOutcome::Bytes(b"1234")), Ok(false));
    assert_eq!(reader.observe(ReadOutcome::Interrupted), Ok(false));
    assert_eq!(reader.observe(ReadOutcome::Bytes(b"56789")), Ok(false));
    assert_eq!(reader.observe(ReadOutcome::Bytes(b"")), Ok(true));
    assert_eq!(
        reader.observe(ReadOutcome::Failed("gone".to_string())),
        Err(Error::Io {
            operation: "read input for CRC32",
            message: "gone".to_string()
        })
    );
    assert_eq!(reader.finish(), (3_421_780_262, 9));
}

#[test]
fn numbers_beyond_the_checksum_width_are_refused() {
    let error = parse_crc32_digest("crc32:4294967296").unwrap_err();
    assert!(error.to_string().contains("exceeds u32"));
    let error = parse_crc32_digest("crc32:0x1").unwrap_err();
    assert!(error.to_string().contains("must be decimal u32"));
}
