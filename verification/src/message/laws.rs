//! Where the fields of a message stand on the wire, and which messages go there.

use vstd::prelude::*;

use super::data::{MessageBodyView, MessageType, MessageView};
use super::descriptor::DigestView;
use super::frame;
use super::integration::{IntegrationBodyView, IntegrationView};
use super::DigestAlgorithm;
use crate::bytes;
use crate::text;

verus! {

/// A message of the second version has its fields at fixed places: the magic, the version, the type,
/// the request, the sequence and the length of what follows.
pub proof fn data_frames_are_laid_out(message: MessageView)
    requires
        message.encode_error() is None,
    ensures
        ({
            let wire = message.wire();
            let length = message.body.payload().len();
            &&& wire.len() == 24 + length
            &&& frame::field(wire, 0, 4) == 0x5552_4d44
            &&& frame::field(wire, 4, 2) == 2
            &&& frame::field(wire, 6, 2) == match message.body {
                MessageBodyView::Ping(_) => 1nat,
                MessageBodyView::Pong(_) => 2nat,
                MessageBodyView::Request { .. } => 3nat,
                MessageBodyView::Metadata { .. } => 4nat,
                MessageBodyView::Data(_) => 5nat,
                MessageBodyView::End { .. } => 6nat,
                MessageBodyView::Error { .. } => 7nat,
            }
            &&& frame::field(wire, 8, 8) == message.request_id
            &&& frame::field(wire, 16, 4) == message.sequence
            &&& frame::field(wire, 20, 4) == length
            &&& wire.skip(24) == message.body.payload()
        }),
{
    frame::lemma_frame_fields(
        super::DATA_VERSION,
        message.body.kind().wire(),
        message.request_id,
        message.sequence,
        message.body.payload(),
    );
}

/// A message of the third version has its fields at the same places.
pub proof fn integration_frames_are_laid_out(message: IntegrationView)
    requires
        message.encode_error() is None,
    ensures
        ({
            let wire = message.wire();
            let length = message.body.payload().len();
            &&& wire.len() == 24 + length
            &&& frame::field(wire, 0, 4) == 0x5552_4d44
            &&& frame::field(wire, 4, 2) == 3
            &&& frame::field(wire, 6, 2) == match message.body {
                IntegrationBodyView::Request { .. } => 3nat,
                IntegrationBodyView::Metadata { .. } => 4nat,
                IntegrationBodyView::Data(_) => 5nat,
                IntegrationBodyView::End { .. } => 6nat,
                IntegrationBodyView::Error { .. } => 7nat,
            }
            &&& frame::field(wire, 8, 8) == message.request_id
            &&& frame::field(wire, 16, 4) == message.sequence
            &&& frame::field(wire, 20, 4) == length
            &&& wire.skip(24) == message.body.payload()
        }),
{
    frame::lemma_frame_fields(
        super::INTEGRATION_VERSION,
        message.body.kind().wire(),
        message.request_id,
        message.sequence,
        message.body.payload(),
    );
}

/// A message of the second version is encoded exactly where its payload is at most 65512 bytes, a
/// request names a task, an error says something, and data are not empty.
pub proof fn data_messages_are_encoded_exactly_when(message: MessageView)
    ensures
        message.encode_error() is None <==> {
            &&& message.body.payload().len() <= 65512
            &&& message.body matches MessageBodyView::Request { task_id, .. } ==> task_id.len() > 0
            &&& message.body matches MessageBodyView::Error { message, .. } ==> message.len() > 0
            &&& message.body matches MessageBodyView::Data(payload) ==> payload.len() > 0
        },
{
    if message.body is Request {
        bytes::lemma_be(message.body->piece_number as nat, 4);
        bytes::lemma_be(text::utf8(message.body->task_id).len(), 4);
    }
}

/// A message of the third version is encoded exactly where it names a request, its payload can be
/// counted, and its body is sound: a request names a task and comes first, metadata come first with a
/// canonical digest, data are not empty, an end counts its own sequence, an error says something.
pub proof fn integration_messages_are_encoded_exactly_when(message: IntegrationView)
    requires
        message.body.payload().len() <= u32::MAX,
        message.body.payload().len() + 24 <= usize::MAX,
    ensures
        message.encode_error() is None <==> {
            &&& message.request_id != 0
            &&& match message.body {
                IntegrationBodyView::Request { task_id, .. } => message.sequence == 0
                    && task_id.len() > 0,
                IntegrationBodyView::Metadata { digest, .. } => message.sequence == 0
                    && digest.error() is None,
                IntegrationBodyView::Data(payload) => payload.len() > 0,
                IntegrationBodyView::End { chunk_count, .. } => chunk_count == message.sequence,
                IntegrationBodyView::Error { message: detail, .. } => message.sequence == 0
                    && detail.len() > 0,
            }
        },
{
    if message.body is Request {
        bytes::lemma_be(message.body->piece_number as nat, 4);
        bytes::lemma_be(text::utf8(message.body->task_id).len(), 4);
    }
}

/// The payload of a request, of an end and of an error have their numbers at fixed places, in both
/// versions.
pub proof fn payloads_are_laid_out(
    task_id: Seq<char>,
    piece_number: u32,
    total_length: u64,
    chunk_count: u32,
    code: u32,
    detail: Seq<char>,
)
    requires
        text::utf8(task_id).len() <= u32::MAX,
    ensures
        ({
            let request = MessageBodyView::Request { task_id, piece_number }.payload();
            &&& request == (IntegrationBodyView::Request { task_id, piece_number }).payload()
            &&& frame::field(request, 0, 4) == piece_number
            &&& frame::field(request, 4, 4) == text::utf8(task_id).len()
            &&& request.skip(8) == text::utf8(task_id)
        }),
        ({
            let end = MessageBodyView::End { total_length, chunk_count }.payload();
            &&& end == (IntegrationBodyView::End { total_length, chunk_count }).payload()
            &&& end.len() == 12
            &&& frame::field(end, 0, 8) == total_length
            &&& frame::field(end, 8, 4) == chunk_count
        }),
        ({
            let error = MessageBodyView::Error { code, message: detail }.payload();
            &&& error == (IntegrationBodyView::Error { code, message: detail }).payload()
            &&& frame::field(error, 0, 4) == code
            &&& error.skip(4) == text::utf8(detail)
        }),
{
    bytes::lemma_be_bounds();
    bytes::lemma_be(piece_number as nat, 4);
    bytes::lemma_be(text::utf8(task_id).len(), 4);
    bytes::lemma_be(total_length as nat, 8);
    bytes::lemma_be(chunk_count as nat, 4);
    bytes::lemma_be(code as nat, 4);
    let request = MessageBodyView::Request { task_id, piece_number }.payload();
    assert(request.subrange(0, 4) =~= bytes::be(piece_number as nat, 4));
    assert(request.subrange(4, 8) =~= bytes::be(text::utf8(task_id).len(), 4));
    assert(request.skip(8) =~= text::utf8(task_id));
    let end = MessageBodyView::End { total_length, chunk_count }.payload();
    assert(end.subrange(0, 8) =~= bytes::be(total_length as nat, 8));
    assert(end.subrange(8, 12) =~= bytes::be(chunk_count as nat, 4));
    let error = MessageBodyView::Error { code, message: detail }.payload();
    assert(error.subrange(0, 4) =~= bytes::be(code as nat, 4));
    assert(error.skip(4) =~= text::utf8(detail));
}

/// The payload of metadata has its numbers and its digest at fixed places: raw in the second version,
/// and with its algorithm and its length in the third.
pub proof fn metadata_are_laid_out(
    offset: u64,
    total_length: u64,
    raw: Seq<u8>,
    digest: DigestView,
)
    requires
        text::utf8(digest.value).len() <= u16::MAX,
    ensures
        ({
            let payload = MessageBodyView::Metadata { offset, total_length, digest: raw }.payload();
            &&& frame::field(payload, 0, 8) == offset
            &&& frame::field(payload, 8, 8) == total_length
            &&& payload.skip(16) == raw
        }),
        ({
            let payload = IntegrationBodyView::Metadata { offset, total_length, digest }.payload();
            &&& frame::field(payload, 0, 8) == offset
            &&& frame::field(payload, 8, 8) == total_length
            &&& frame::field(payload, 16, 2) == match digest.algorithm {
                DigestAlgorithm::Crc32 => 1nat,
                DigestAlgorithm::Sha256 => 2nat,
            }
            &&& frame::field(payload, 18, 2) == text::utf8(digest.value).len()
            &&& payload.skip(20) == text::utf8(digest.value)
        }),
{
    bytes::lemma_be_bounds();
    bytes::lemma_be(offset as nat, 8);
    bytes::lemma_be(total_length as nat, 8);
    bytes::lemma_be(digest.algorithm.wire() as nat, 2);
    bytes::lemma_be(text::utf8(digest.value).len(), 2);
    let old_payload = MessageBodyView::Metadata { offset, total_length, digest: raw }.payload();
    assert(old_payload.subrange(0, 8) =~= bytes::be(offset as nat, 8));
    assert(old_payload.subrange(8, 16) =~= bytes::be(total_length as nat, 8));
    assert(old_payload.skip(16) =~= raw);
    let payload = IntegrationBodyView::Metadata { offset, total_length, digest }.payload();
    assert(payload.subrange(0, 8) =~= bytes::be(offset as nat, 8));
    assert(payload.subrange(8, 16) =~= bytes::be(total_length as nat, 8));
    assert(payload.subrange(16, 18) =~= bytes::be(digest.algorithm.wire() as nat, 2));
    assert(payload.subrange(18, 20) =~= bytes::be(text::utf8(digest.value).len(), 2));
    assert(payload.skip(20) =~= text::utf8(digest.value));
}

/// Payload bytes go on the wire as they are.
pub proof fn data_go_as_they_are(payload: Seq<u8>)
    ensures
        MessageBodyView::Data(payload).payload() == payload,
        MessageBodyView::Ping(payload).payload() == payload,
        MessageBodyView::Pong(payload).payload() == payload,
        IntegrationBodyView::Data(payload).payload() == payload,
{
}

/// A SHA-256 digest is canonical exactly where it is 64 lowercase hexadecimal digits.
pub proof fn sha256_digests_are_canonical_exactly_when(digest: DigestView)
    requires
        digest.algorithm == DigestAlgorithm::Sha256,
    ensures
        digest.error() is None <==> {
            &&& text::utf8(digest.value).len() == 64
            &&& forall|i: int|
                0 <= i < digest.value.len() ==> text::is_lower_hex_digit(
                    #[trigger] digest.value[i],
                )
        },
{
}

/// The numbers of the message types and of the algorithms are read back, and different ones differ.
pub proof fn wire_numbers_are_read_back(kind: MessageType, algorithm: DigestAlgorithm)
    ensures
        MessageType::of_wire(kind.wire() as nat) == Ok::<MessageType, crate::error::ErrorView>(kind),
        DigestAlgorithm::of_wire(algorithm.wire() as nat) == Ok::<
            DigestAlgorithm,
            crate::error::ErrorView,
        >(algorithm),
{
}

} // verus!
