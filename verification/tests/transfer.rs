use sha2::{Digest, Sha256};
use urma_transport_lab::demo::{
    another_round, child_report, parent_report, ping_pong_report, reposts, FileSender,
};
use urma_transport_lab::message::MAX_DATA_PAYLOAD_LEN;
use urma_transport_lab::transfer::DigestReader;
use urma_transport_lab::{
    digest_reader, hex_digest, CompletionStats, Error, Message, MessageBody, ReceiveState, Result,
    TransferSummary,
};

fn digest(bytes: &[u8]) -> [u8; 32] {
    Sha256::digest(bytes).into()
}

fn accept(
    state: &mut ReceiveState,
    message: &Message,
    output: &mut Vec<u8>,
) -> Result<Option<TransferSummary>> {
    if let (Ok(()), MessageBody::Data(payload)) = (state.check(message), &message.body) {
        output.extend_from_slice(payload);
    }
    state.accept(message, Ok(()))
}

fn transfer(chunks: &[&[u8]]) -> Result<(TransferSummary, Vec<u8>)> {
    let all = chunks.concat();
    let mut state = ReceiveState::new(7)?;
    let mut output = Vec::new();
    accept(&mut state, 
        &Message::metadata(7, 0, all.len() as u64, digest(&all)),
        &mut output,
    )?;
    for (sequence, chunk) in chunks.iter().enumerate() {
        accept(&mut state, 
            &Message::data(7, sequence as u32, chunk.to_vec()),
            &mut output,
        )?;
    }
    let summary = accept(&mut state, 
            &Message::end(7, chunks.len() as u32, all.len() as u64),
            &mut output,
        )?
        .expect("End completes transfer");
    Ok((summary, output))
}

#[test]
fn accepts_empty_small_and_multi_message_files() {
    let cases: Vec<Vec<Vec<u8>>> = vec![
        vec![],
        vec![b"small".to_vec()],
        vec![
            vec![1; MAX_DATA_PAYLOAD_LEN],
            vec![2; MAX_DATA_PAYLOAD_LEN],
            vec![3; 17],
        ],
    ];
    for chunks in cases {
        let refs: Vec<&[u8]> = chunks.iter().map(Vec::as_slice).collect();
        let expected = refs.concat();
        let (summary, output) = transfer(&refs).unwrap();
        assert_eq!(output, expected);
        assert_eq!(summary.bytes, expected.len() as u64);
        assert_eq!(summary.data_messages, refs.len() as u32);
    }
}

#[test]
fn rejects_sequence_gap_duplicate_and_out_of_order() {
    for sequence in [1, 2] {
        let mut state = ReceiveState::new(7).unwrap();
        let mut output = Vec::new();
        accept(&mut state, &Message::metadata(7, 0, 2, digest(b"ab")), &mut output)
            .unwrap();
        assert!(accept(&mut state, &Message::data(7, sequence, b"a".to_vec()), &mut output)
            .is_err());
    }

    let mut state = ReceiveState::new(7).unwrap();
    let mut output = Vec::new();
    accept(&mut state, &Message::metadata(7, 0, 2, digest(b"aa")), &mut output)
        .unwrap();
    accept(&mut state, &Message::data(7, 0, b"a".to_vec()), &mut output)
        .unwrap();
    assert!(accept(&mut state, &Message::data(7, 0, b"a".to_vec()), &mut output)
        .is_err());
}

#[test]
fn rejects_end_total_length_mismatch() {
    let mut state = ReceiveState::new(7).unwrap();
    let mut output = Vec::new();
    accept(&mut state, &Message::metadata(7, 0, 1, digest(b"a")), &mut output)
        .unwrap();
    accept(&mut state, &Message::data(7, 0, b"a".to_vec()), &mut output)
        .unwrap();
    assert!(accept(&mut state, &Message::end(7, 1, 2), &mut output).is_err());
}

#[test]
fn reports_error_message() {
    let mut state = ReceiveState::new(7).unwrap();
    let error = accept(&mut state, &Message::error(7, 404, "missing"), &mut Vec::new())
        .unwrap_err();
    assert!(error.to_string().contains("404"));
}

#[test]
fn digest_reader_is_streaming_and_correct() {
    let bytes = vec![9; MAX_DATA_PAYLOAD_LEN + 1];
    let (actual, length) = digest_reader(&bytes).unwrap();
    assert_eq!(actual, digest(&bytes));
    assert_eq!(length, bytes.len() as u64);
}

#[test]
fn digests_are_taken_piece_by_piece() {
    let mut reader = DigestReader::new();
    for piece in [b"ab".as_slice(), b"c".as_slice(), b"".as_slice()] {
        assert_eq!(reader.observe(Ok(piece)), Ok(piece.is_empty()));
    }
    let (digested, length) = reader.finish();
    assert_eq!(
        hex_digest(&digested),
        "ba7816bf8f01cfea414140de5dae2223b00361a396177a9cb410ff61f20015ad"
    );
    assert_eq!(length, 3);
    let failed = reader.observe(Err("gone".to_string())).unwrap_err();
    assert_eq!(
        failed,
        Error::Io {
            operation: "read input file for digest",
            message: "gone".to_string()
        }
    );
}

#[test]
fn a_wrong_digest_and_a_failed_write_are_refused() {
    let mut state = ReceiveState::new(7).unwrap();
    let mut output = Vec::new();
    accept(&mut state, &Message::metadata(7, 0, 1, [0; 32]), &mut output).unwrap();
    let failed = state
        .accept(&Message::data(7, 0, b"a".to_vec()), Err("full".to_string()))
        .unwrap_err();
    assert!(matches!(failed, Error::Io { .. }));
    accept(&mut state, &Message::data(7, 0, b"a".to_vec()), &mut output).unwrap();
    let error = accept(&mut state, &Message::end(7, 1, 1), &mut output).unwrap_err();
    assert!(error.to_string().contains("digest mismatch"));
    assert!(ReceiveState::new(0).is_err());
}

#[test]
fn a_sent_file_is_received_whole() {
    let mut sender = FileSender::answer(&Message::request(1, "m4-demo-task", 0)).unwrap();
    let file = b"0123456789abcdef".to_vec();
    let (digested, length) = digest_reader(&file).unwrap();
    let mut messages = vec![sender.metadata(length, digested)];
    for piece in file.chunks(5) {
        messages.push(sender.data(piece.to_vec()));
        sender.sent().unwrap();
    }
    messages.push(sender.end(length));

    let mut state = ReceiveState::new(1).unwrap();
    let mut output = Vec::new();
    let mut summary = None;
    for message in &messages {
        assert_eq!(
            reposts(message),
            !matches!(message.body, MessageBody::End { .. })
        );
        summary = accept(&mut state, message, &mut output).unwrap();
    }
    let summary = summary.unwrap();
    assert_eq!(output, file);
    assert_eq!(summary.bytes, 16);
    assert_eq!(summary.data_messages, 4);
    assert_eq!(
        child_report(&summary, CompletionStats::default(), 9),
        "{\"role\":\"child\",\"bytes\":16,\"data_messages\":4,\"send_post\":0,\"send_cqe\":0,\"recv_cqe\":0,\"length_ok\":true,\"digest_ok\":true,\"elapsed_us\":9}"
    );
    assert_eq!(
        parent_report(length, sender.sequence(), CompletionStats::default(), 8),
        "{\"role\":\"parent\",\"bytes\":16,\"data_messages\":4,\"send_post\":0,\"send_cqe\":0,\"recv_cqe\":0,\"digest_ok\":true,\"elapsed_us\":8}"
    );
}

#[test]
fn only_requests_are_answered() {
    assert!(FileSender::answer(&Message::request(0, "task", 0)).is_err());
    assert!(FileSender::answer(&Message::ping()).is_err());
    assert!(another_round(0, 2));
    assert!(!another_round(1, 2));
    assert_eq!(
        ping_pong_report("parent", 2, CompletionStats::default()),
        "{\"role\":\"parent\",\"rounds\":2,\"send_post\":0,\"send_cqe\":0,\"recv_cqe\":0,\"payload_ok\":true}"
    );
}

#[test]
fn a_transfer_ends_only_as_advertised_and_only_once() {
    let opened = || {
        let mut state = ReceiveState::new(7).unwrap();
        let metadata = Message::metadata(7, 0, 6, digest(b"abcdef"));
        state.accept(&metadata, Ok(())).unwrap();
        for (sequence, piece) in [b"abc", b"def"].into_iter().enumerate() {
            let data = Message::data(7, sequence as u32, piece.to_vec());
            assert_eq!(state.accept(&data, Ok(())).unwrap(), None);
        }
        state
    };
    for (sequence, length) in [(1, 6), (3, 6), (2, 5), (2, 7)] {
        let refused = opened().accept(&Message::end(7, sequence, length), Ok(()));
        assert!(matches!(refused, Err(Error::Protocol(_))));
    }
    let mut state = opened();
    assert!(state
        .accept(&Message::data(7, 2, b"g".to_vec()), Ok(()))
        .is_err());
    let summary = state.accept(&Message::end(7, 2, 6), Ok(())).unwrap();
    assert_eq!(
        summary,
        Some(TransferSummary {
            bytes: 6,
            data_messages: 2,
            digest: digest(b"abcdef"),
        })
    );
    for later in [
        Message::end(7, 2, 6),
        Message::data(7, 2, Vec::new()),
        Message::metadata(7, 0, 6, digest(b"abcdef")),
        Message::request(7, "task", 0),
    ] {
        assert!(state.accept(&later, Ok(())).is_err());
    }
}
