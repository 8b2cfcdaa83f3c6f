//! The data message format, version 2.

use vstd::prelude::*;

use super::frame;
use super::frame::encode_frame;
use super::integration::IntegrationView;
use crate::bytes;
use crate::bytes::{
    copy_range, push_bytes, push_u32, push_u64, read_u16, read_u32, read_u64, same_bytes,
};
use crate::error::{protocol, Error, ErrorView, Result};
use crate::text;
use crate::text::{text_from_utf8, with_hex, with_number, with_numbers, Text};

verus! {

/// The type of a data message.
#[derive(Clone, Copy, Debug, Eq, PartialEq, Structural)]
pub enum MessageType {
    Ping,
    Pong,
    Request,
    Metadata,
    Data,
    End,
    Error,
}

impl MessageType {
    /// The number that stands for the type on the wire.
    pub open spec fn wire(self) -> u16 {
        match self {
            MessageType::Ping => 1,
            MessageType::Pong => 2,
            MessageType::Request => 3,
            MessageType::Metadata => 4,
            MessageType::Data => 5,
            MessageType::End => 6,
            MessageType::Error => 7,
        }
    }

    /// The type that a wire number stands for.
    pub open spec fn of_wire(value: nat) -> core::result::Result<Self, ErrorView> {
        if value == 1 {
            Ok(MessageType::Ping)
        } else if value == 2 {
            Ok(MessageType::Pong)
        } else if value == 3 {
            Ok(MessageType::Request)
        } else if value == 4 {
            Ok(MessageType::Metadata)
        } else if value == 5 {
            Ok(MessageType::Data)
        } else if value == 6 {
            Ok(MessageType::End)
        } else if value == 7 {
            Ok(MessageType::Error)
        } else {
            Err(ErrorView::Protocol("unknown data message type "@ + text::decimal(value) + ""@))
        }
    }

    /// The number that stands for the type on the wire.
    pub fn wire_value(self) -> (value: u16)
        ensures
            value == self.wire(),
    {
        match self {
            MessageType::Ping => 1,
            MessageType::Pong => 2,
            MessageType::Request => 3,
            MessageType::Metadata => 4,
            MessageType::Data => 5,
            MessageType::End => 6,
            MessageType::Error => 7,
        }
    }

    /// The type that a wire number stands for.
    pub fn try_from(value: u16) -> (kind: Result<Self>)
        ensures
            match kind {
                Ok(kind) => Self::of_wire(value as nat) == Ok::<Self, ErrorView>(kind),
                Err(error) => Self::of_wire(value as nat) == Err::<Self, ErrorView>(error@),
            },
    {
        match value {
            1 => Ok(MessageType::Ping),
            2 => Ok(MessageType::Pong),
            3 => Ok(MessageType::Request),
            4 => Ok(MessageType::Metadata),
            5 => Ok(MessageType::Data),
            6 => Ok(MessageType::End),
            7 => Ok(MessageType::Error),
            _ => Err(Error::Protocol(with_number("unknown data message type ", value as u64, ""))),
        }
    }
}

/// What a data message says.
#[derive(Clone, Debug, Eq, PartialEq)]
pub enum MessageBody {
    Ping(Vec<u8>),
    Pong(Vec<u8>),
    Request { task_id: String, piece_number: u32 },
    Metadata { offset: u64, total_length: u64, digest: [u8; 32] },
    Data(Vec<u8>),
    End { total_length: u64, chunk_count: u32 },
    Error { code: u32, message: String },
}

/// A [`MessageBody`] with its texts and payloads as sequences.
pub enum MessageBodyView {
    Ping(Seq<u8>),
    Pong(Seq<u8>),
    Request { task_id: Seq<char>, piece_number: u32 },
    Metadata { offset: u64, total_length: u64, digest: Seq<u8> },
    Data(Seq<u8>),
    End { total_length: u64, chunk_count: u32 },
    Error { code: u32, message: Seq<char> },
}

impl View for MessageBody {
    type V = MessageBodyView;

    open spec fn view(&self) -> MessageBodyView {
        match self {
            MessageBody::Ping(payload) => MessageBodyView::Ping(payload@),
            MessageBody::Pong(payload) => MessageBodyView::Pong(payload@),
            MessageBody::Request { task_id, piece_number } => MessageBodyView::Request {
                task_id: task_id@,
                piece_number: *piece_number,
            },
            MessageBody::Metadata { offset, total_length, digest } => MessageBodyView::Metadata {
                offset: *offset,
                total_length: *total_length,
                digest: digest@,
            },
            MessageBody::Data(payload) => MessageBodyView::Data(payload@),
            MessageBody::End { total_length, chunk_count } => MessageBodyView::End {
                total_length: *total_length,
                chunk_count: *chunk_count,
            },
            MessageBody::Error { code, message } => MessageBodyView::Error {
                code: *code,
                message: message@,
            },
        }
    }
}

/// A version 2 message.
#[derive(Clone, Debug, Eq, PartialEq)]
pub struct Message {
    pub request_id: u64,
    pub sequence: u32,
    pub body: MessageBody,
}

/// A [`Message`] with its body as sequences.
pub struct MessageView {
    pub request_id: u64,
    pub sequence: u32,
    pub body: MessageBodyView,
}

impl View for Message {
    type V = MessageView;

    open spec fn view(&self) -> MessageView {
        MessageView { request_id: self.request_id, sequence: self.sequence, body: self.body@ }
    }
}

impl MessageBodyView {
    /// The message type of the body.
    pub open spec fn kind(self) -> MessageType {
        match self {
            MessageBodyView::Ping(_) => MessageType::Ping,
            MessageBodyView::Pong(_) => MessageType::Pong,
            MessageBodyView::Request { .. } => MessageType::Request,
            MessageBodyView::Metadata { .. } => MessageType::Metadata,
            MessageBodyView::Data(_) => MessageType::Data,
            MessageBodyView::End { .. } => MessageType::End,
            MessageBodyView::Error { .. } => MessageType::Error,
        }
    }

    /// Whether the digest, where there is one, has the length of a SHA-256 digest.
    pub open spec fn sized(self) -> bool {
        self matches MessageBodyView::Metadata { digest, .. } ==> digest.len() == 32
    }

    /// The payload bytes of the body.
    pub open spec fn payload(self) -> Seq<u8> {
        match self {
            MessageBodyView::Ping(payload) => payload,
            MessageBodyView::Pong(payload) => payload,
            MessageBodyView::Request { task_id, piece_number } => {
                bytes::be(piece_number as nat, 4) + bytes::be(text::utf8(task_id).len(), 4)
                    + text::utf8(task_id)
            },
            MessageBodyView::Metadata { offset, total_length, digest } => {
                bytes::be(offset as nat, 8) + bytes::be(total_length as nat, 8) + digest
            },
            MessageBodyView::Data(payload) => payload,
            MessageBodyView::End { total_length, chunk_count } => {
                bytes::be(total_length as nat, 8) + bytes::be(chunk_count as nat, 4)
            },
            MessageBodyView::Error { code, message } => {
                bytes::be(code as nat, 4) + text::utf8(message)
            },
        }
    }

    /// The error that encoding the body's payload fails with, if it fails.
    pub open spec fn payload_error(self) -> Option<ErrorView> {
        match self {
            MessageBodyView::Request { task_id, .. } => {
                if task_id.len() == 0 {
                    Some(ErrorView::Protocol("Request task_id must not be empty"@))
                } else if text::utf8(task_id).len() > u32::MAX {
                    Some(ErrorView::Protocol("Request task_id exceeds u32"@))
                } else {
                    None
                }
            },
            MessageBodyView::Error { message, .. } => {
                if message.len() == 0 {
                    Some(ErrorView::Protocol("Error message must not be empty"@))
                } else {
                    None
                }
            },
            _ => None,
        }
    }

    /// The body that a payload of the given type spells, or the error that it is refused with.
    pub open spec fn parse(kind: MessageType, payload: Seq<u8>) -> core::result::Result<
        Self,
        ErrorView,
    > {
        match kind {
            MessageType::Ping => Ok(MessageBodyView::Ping(payload)),
            MessageType::Pong => Ok(MessageBodyView::Pong(payload)),
            MessageType::Request => {
                let task = payload.skip(8);
                if payload.len() < 8 {
                    Err(ErrorView::Protocol("truncated Request payload"@))
                } else if frame::field(payload, 4, 4) == 0 || task.len() != frame::field(
                    payload,
                    4,
                    4,
                ) {
                    Err(ErrorView::Protocol("invalid Request task_id length"@))
                } else if !vstd::utf8::valid_utf8(task) {
                    Err(ErrorView::Protocol("Request task_id is not UTF-8"@))
                } else {
                    Ok(
                        MessageBodyView::Request {
                            task_id: vstd::utf8::decode_utf8(task),
                            piece_number: frame::field(payload, 0, 4) as u32,
                        },
                    )
                }
            },
            MessageType::Metadata => {
                if payload.len() != 48 {
                    Err(ErrorView::Protocol("Metadata payload length must be 48"@))
                } else {
                    Ok(
                        MessageBodyView::Metadata {
                            offset: frame::field(payload, 0, 8) as u64,
                            total_length: frame::field(payload, 8, 8) as u64,
                            digest: payload.skip(16),
                        },
                    )
                }
            },
            MessageType::Data => Ok(MessageBodyView::Data(payload)),
            MessageType::End => {
                if payload.len() != 12 {
                    Err(ErrorView::Protocol("End payload length must be 12"@))
                } else {
                    Ok(
                        MessageBodyView::End {
                            total_length: frame::field(payload, 0, 8) as u64,
                            chunk_count: frame::field(payload, 8, 4) as u32,
                        },
                    )
                }
            },
            MessageType::Error => {
                let message = payload.skip(4);
                if payload.len() < 5 {
                    Err(ErrorView::Protocol("truncated Error payload"@))
                } else if !vstd::utf8::valid_utf8(message) {
                    Err(ErrorView::Protocol("Error message is not UTF-8"@))
                } else {
                    Ok(
                        MessageBodyView::Error {
                            code: frame::field(payload, 0, 4) as u32,
                            message: vstd::utf8::decode_utf8(message),
                        },
                    )
                }
            },
        }
    }
}

impl MessageView {
    /// The message that a Ping is.
    pub open spec fn ping() -> Self {
        MessageView {
            request_id: 0,
            sequence: 0,
            body: MessageBodyView::Ping(text::utf8("urma-phase0-ping"@)),
        }
    }

    /// The message that a Pong is.
    pub open spec fn pong() -> Self {
        MessageView {
            request_id: 0,
            sequence: 0,
            body: MessageBodyView::Pong(text::utf8("urma-phase0-pong"@)),
        }
    }

    /// The error that encoding the message fails with, if it fails.
    pub open spec fn encode_error(self) -> Option<ErrorView> {
        let payload = self.body.payload();
        if self.body.payload_error() is Some {
            self.body.payload_error()
        } else if payload.len() > super::MAX_DATA_PAYLOAD_LEN {
            Some(
                ErrorView::Protocol(
                    "data payload length "@ + text::decimal(payload.len()) + " exceeds 65512"@,
                ),
            )
        } else if self.body is Data && payload.len() == 0 {
            Some(ErrorView::Protocol("Data payload must not be empty"@))
        } else {
            None
        }
    }

    /// The frame of the message.
    pub open spec fn wire(self) -> Seq<u8> {
        frame::frame(
            super::DATA_VERSION as nat,
            self.body.kind().wire() as nat,
            self.request_id as nat,
            self.sequence as nat,
            self.body.payload(),
        )
    }

    /// The message that a frame spells, or the error that it is refused with.
    pub open spec fn parse(input: Seq<u8>) -> core::result::Result<Self, ErrorView> {
        let magic = frame::field(input, 0, 4);
        let version = frame::field(input, 4, 2);
        let length = frame::field(input, 20, 4);
        if input.len() < 24 {
            Err(ErrorView::Protocol("truncated data message header"@))
        } else if magic != super::DATA_MAGIC {
            Err(ErrorView::Protocol("invalid data magic 0x"@ + text::hex(magic, 8) + ""@))
        } else if version != super::DATA_VERSION {
            Err(ErrorView::Protocol("unsupported data version "@ + text::decimal(version) + ""@))
        } else {
            match MessageType::of_wire(frame::field(input, 6, 2)) {
                Err(error) => Err(error),
                Ok(kind) => {
                    if length > super::MAX_DATA_PAYLOAD_LEN || input.len() != length + 24 {
                        Err(
                            ErrorView::Protocol(
                                "data payload length "@ + text::decimal(length)
                                    + " disagrees with frame length "@ + text::decimal(input.len())
                                    + ""@,
                            ),
                        )
                    } else {
                        match MessageBodyView::parse(kind, input.skip(24)) {
                            Err(error) => Err(error),
                            Ok(body) => {
                                if body is Data && input.len() == 24 {
                                    Err(ErrorView::Protocol("Data payload must not be empty"@))
                                } else {
                                    Ok(
                                        MessageView {
                                            request_id: frame::field(input, 8, 8) as u64,
                                            sequence: frame::field(input, 16, 4) as u32,
                                            body,
                                        },
                                    )
                                }
                            },
                        }
                    }
                },
            }
        }
    }
}

impl Message {
    pub fn ping() -> (message: Self)
        ensures
            message@ == MessageView::ping(),
    {
        Message {
            request_id: 0,
            sequence: 0,
            body: MessageBody::Ping("urma-phase0-ping".as_bytes_vec()),
        }
    }

    pub fn pong() -> (message: Self)
        ensures
            message@ == MessageView::pong(),
    {
        Message {
            request_id: 0,
            sequence: 0,
            body: MessageBody::Pong("urma-phase0-pong".as_bytes_vec()),
        }
    }

    pub fn request<T: Text>(request_id: u64, task_id: T, piece_number: u32) -> (message: Self)
        ensures
            message@ == (MessageView {
                request_id,
                sequence: 0,
                body: MessageBodyView::Request { task_id: task_id.text(), piece_number },
            }),
    {
        Message {
            request_id,
            sequence: 0,
            body: MessageBody::Request { task_id: task_id.into_string(), piece_number },
        }
    }

    pub fn metadata(request_id: u64, offset: u64, total_length: u64, digest: [u8; 32]) -> (message:
        Self)
        ensures
            message@ == (MessageView {
                request_id,
                sequence: 0,
                body: MessageBodyView::Metadata { offset, total_length, digest: digest@ },
            }),
    {
        Message {
            request_id,
            sequence: 0,
            body: MessageBody::Metadata { offset, total_length, digest },
        }
    }

    pub fn data(request_id: u64, sequence: u32, payload: Vec<u8>) -> (message: Self)
        ensures
            message@ == (MessageView {
                request_id,
                sequence,
                body: MessageBodyView::Data(payload@),
            }),
    {
        Message { request_id, sequence, body: MessageBody::Data(payload) }
    }

    pub fn end(request_id: u64, sequence: u32, total_length: u64) -> (message: Self)
        ensures
            message@ == (MessageView {
                request_id,
                sequence,
                body: MessageBodyView::End { total_length, chunk_count: sequence },
            }),
    {
        Message {
            request_id,
            sequence,
            body: MessageBody::End { total_length, chunk_count: sequence },
        }
    }

    pub fn error<T: Text>(request_id: u64, code: u32, message: T) -> (error: Self)
        ensures
            error@ == (MessageView {
                request_id,
                sequence: 0,
                body: MessageBodyView::Error { code, message: message.text() },
            }),
    {
        Message {
            request_id,
            sequence: 0,
            body: MessageBody::Error { code, message: message.into_string() },
        }
    }

    pub fn message_type(&self) -> (kind: MessageType)
        ensures
            kind == self@.body.kind(),
    {
        match self.body {
            MessageBody::Ping(_) => MessageType::Ping,
            MessageBody::Pong(_) => MessageType::Pong,
            MessageBody::Request { .. } => MessageType::Request,
            MessageBody::Metadata { .. } => MessageType::Metadata,
            MessageBody::Data(_) => MessageType::Data,
            MessageBody::End { .. } => MessageType::End,
            MessageBody::Error { .. } => MessageType::Error,
        }
    }

    /// The frame of the message.
    pub fn encode(&self) -> (encoded: Result<Vec<u8>>)
        ensures
            match encoded {
                Ok(out) => self@.encode_error() is None && out@ == self@.wire(),
                Err(error) => self@.encode_error() == Some(error@),
            },
    {
        let payload = match self.encode_payload() {
            Ok(payload) => payload,
            Err(error) => {
                return Err(error);
            },
        };
        if payload.len() > super::MAX_DATA_PAYLOAD_LEN {
            return Err(
                Error::Protocol(
                    with_number("data payload length ", payload.len() as u64, " exceeds 65512"),
                ),
            );
        }
        if self.message_type() == MessageType::Data && payload.len() == 0 {
            return Err(protocol("Data payload must not be empty"));
        }
        Ok(
            encode_frame(
                super::DATA_VERSION,
                self.message_type().wire_value(),
                self.request_id,
                self.sequence,
                payload.as_slice(),
            ),
        )
    }

    /// The message that a frame spells.
    pub fn decode(input: &[u8]) -> (decoded: Result<Self>)
        ensures
            match decoded {
                Ok(message) => MessageView::parse(input@) == Ok::<MessageView, ErrorView>(message@),
                Err(error) => MessageView::parse(input@) == Err::<MessageView, ErrorView>(error@),
            },
    {
        if input.len() < super::DATA_HEADER_LEN {
            return Err(protocol("truncated data message header"));
        }
        let magic: u32 = read_u32(input, 0);
        if magic != super::DATA_MAGIC {
            return Err(Error::Protocol(with_hex("invalid data magic 0x", magic as u64, 8, "")));
        }
        let version: u16 = read_u16(input, 4);
        if version != super::DATA_VERSION {
            return Err(
                Error::Protocol(with_number("unsupported data version ", version as u64, "")),
            );
        }
        let kind = match MessageType::try_from(read_u16(input, 6)) {
            Ok(kind) => kind,
            Err(error) => {
                return Err(error);
            },
        };
        let request_id: u64 = read_u64(input, 8);
        let sequence: u32 = read_u32(input, 16);
        let length: usize = read_u32(input, 20) as usize;
        if length > super::MAX_DATA_PAYLOAD_LEN || input.len() != super::DATA_HEADER_LEN + length {
            return Err(
                Error::Protocol(
                    with_numbers(
                        "data payload length ",
                        length as u64,
                        " disagrees with frame length ",
                        input.len() as u64,
                        "",
                    ),
                ),
            );
        }
        let payload = vstd::slice::slice_subrange(input, super::DATA_HEADER_LEN, input.len());
        assert(payload@ =~= input@.skip(24));
        let body = match Self::decode_payload(kind, payload) {
            Ok(body) => body,
            Err(error) => {
                return Err(error);
            },
        };
        if matches!(body, MessageBody::Data(_)) && payload.len() == 0 {
            return Err(protocol("Data payload must not be empty"));
        }
        Ok(Message { request_id, sequence, body })
    }

    /// Whether the message is a Ping.
    pub fn validate_ping(&self) -> (valid: Result<()>)
        ensures
            match valid {
                Ok(()) => self@ == MessageView::ping(),
                Err(error) => {
                    &&& self@ != MessageView::ping()
                    &&& error@ == ErrorView::Protocol("unexpected Ping payload"@)
                },
            },
    {
        if let MessageBody::Ping(payload) = &self.body {
            if self.request_id == 0 && self.sequence == 0 && same_bytes(
                payload.as_slice(),
                "urma-phase0-ping".as_bytes(),
            ) {
                return Ok(());
            }
        }
        Err(protocol("unexpected Ping payload"))
    }

    /// Whether the message is a Pong.
    pub fn validate_pong(&self) -> (valid: Result<()>)
        ensures
            match valid {
                Ok(()) => self@ == MessageView::pong(),
                Err(error) => {
                    &&& self@ != MessageView::pong()
                    &&& error@ == ErrorView::Protocol("unexpected Pong payload"@)
                },
            },
    {
        if let MessageBody::Pong(payload) = &self.body {
            if self.request_id == 0 && self.sequence == 0 && same_bytes(
                payload.as_slice(),
                "urma-phase0-pong".as_bytes(),
            ) {
                return Ok(());
            }
        }
        Err(protocol("unexpected Pong payload"))
    }

    fn encode_payload(&self) -> (encoded: Result<Vec<u8>>)
        ensures
            match encoded {
                Ok(out) => self@.body.payload_error() is None && out@ == self@.body.payload(),
                Err(error) => self@.body.payload_error() == Some(error@),
            },
    {
        let mut out: Vec<u8> = Vec::new();
        match &self.body {
            MessageBody::Ping(payload) => {
                push_bytes(&mut out, payload.as_slice());
                assert(out@ =~= self@.body.payload());
            },
            MessageBody::Pong(payload) => {
                push_bytes(&mut out, payload.as_slice());
                assert(out@ =~= self@.body.payload());
            },
            MessageBody::Data(payload) => {
                push_bytes(&mut out, payload.as_slice());
                assert(out@ =~= self@.body.payload());
            },
            MessageBody::Request { task_id, piece_number } => {
                let task = task_id.as_str().as_bytes();
                proof {
                    text::lemma_utf8_properties(task_id@);
                }
                if task.len() == 0 {
                    return Err(protocol("Request task_id must not be empty"));
                }
                if task.len() as u64 > 0xffff_ffff {
                    return Err(protocol("Request task_id exceeds u32"));
                }
                push_u32(&mut out, *piece_number);
                push_u32(&mut out, task.len() as u32);
                push_bytes(&mut out, task);
                assert(out@ =~= self@.body.payload());
            },
            MessageBody::Metadata { offset, total_length, digest } => {
                push_u64(&mut out, *offset);
                push_u64(&mut out, *total_length);
                push_bytes(&mut out, vstd::array::array_as_slice(digest));
                assert(out@ =~= self@.body.payload());
            },
            MessageBody::End { total_length, chunk_count } => {
                push_u64(&mut out, *total_length);
                push_u32(&mut out, *chunk_count);
                assert(out@ =~= self@.body.payload());
            },
            MessageBody::Error { code, message } => {
                let text = message.as_str().as_bytes();
                proof {
                    text::lemma_utf8_properties(message@);
                }
                if text.len() == 0 {
                    return Err(protocol("Error message must not be empty"));
                }
                push_u32(&mut out, *code);
                push_bytes(&mut out, text);
                assert(out@ =~= self@.body.payload());
            },
        }
        Ok(out)
    }

    fn decode_payload(kind: MessageType, payload: &[u8]) -> (decoded: Result<MessageBody>)
        ensures
            match decoded {
                Ok(body) => MessageBodyView::parse(kind, payload@) == Ok::<
                    MessageBodyView,
                    ErrorView,
                >(body@),
                Err(error) => MessageBodyView::parse(kind, payload@) == Err::<
                    MessageBodyView,
                    ErrorView,
                >(error@),
            },
    {
        match kind {
            MessageType::Ping => {
                let copy = copy_range(payload, 0, payload.len());
                assert(copy@ =~= payload@);
                Ok(MessageBody::Ping(copy))
            },
            MessageType::Pong => {
                let copy = copy_range(payload, 0, payload.len());
                assert(copy@ =~= payload@);
                Ok(MessageBody::Pong(copy))
            },
            MessageType::Request => {
                if payload.len() < 8 {
                    return Err(protocol("truncated Request payload"));
                }
                let piece_number: u32 = read_u32(payload, 0);
                let task_len: usize = read_u32(payload, 4) as usize;
                if task_len == 0 || payload.len() - 8 != task_len {
                    return Err(protocol("invalid Request task_id length"));
                }
                let task = vstd::slice::slice_subrange(payload, 8, payload.len());
                assert(task@ =~= payload@.skip(8));
                match text_from_utf8(task) {
                    Some(task_id) => {
                        proof {
                            vstd::utf8::encode_utf8_decode_utf8(task_id@);
                        }
                        Ok(MessageBody::Request { task_id, piece_number })
                    },
                    None => Err(protocol("Request task_id is not UTF-8")),
                }
            },
            MessageType::Metadata => {
                if payload.len() != 48 {
                    return Err(protocol("Metadata payload length must be 48"));
                }
                let digest = read_digest(payload, 16);
                assert(digest@ =~= payload@.skip(16));
                Ok(
                    MessageBody::Metadata {
                        offset: read_u64(payload, 0),
                        total_length: read_u64(payload, 8),
                        digest,
                    },
                )
            },
            MessageType::Data => {
                let copy = copy_range(payload, 0, payload.len());
                assert(copy@ =~= payload@);
                Ok(MessageBody::Data(copy))
            },
            MessageType::End => {
                if payload.len() != 12 {
                    return Err(protocol("End payload length must be 12"));
                }
                Ok(
                    MessageBody::End {
                        total_length: read_u64(payload, 0),
                        chunk_count: read_u32(payload, 8),
                    },
                )
            },
            MessageType::Error => {
                if payload.len() < 5 {
                    return Err(protocol("truncated Error payload"));
                }
                let message_bytes = vstd::slice::slice_subrange(payload, 4, payload.len());
                assert(message_bytes@ =~= payload@.skip(4));
                match text_from_utf8(message_bytes) {
                    Some(message) => {
                        proof {
                            vstd::utf8::encode_utf8_decode_utf8(message@);
                        }
                        Ok(MessageBody::Error { code: read_u32(payload, 0), message })
                    },
                    None => Err(protocol("Error message is not UTF-8")),
                }
            },
        }
    }
}

/// The 32 bytes at `offset`.
fn read_digest(input: &[u8], offset: usize) -> (digest: [u8; 32])
    requires
        offset + 32 <= input.len(),
    ensures
        digest@ == input@.subrange(offset as int, offset + 32),
{
    let mut digest: [u8; 32] = [0u8;32];
    let mut index: usize = 0;
    while index < 32
        invariant
            index <= 32,
            offset + 32 <= input.len(),
            forall|i: int| 0 <= i < index ==> digest@[i] == input@[offset + i],
        decreases 32 - index,
    {
        digest[index] = input[offset + index];
        index += 1;
    }
    assert(digest@ =~= input@.subrange(offset as int, offset + 32));
    digest
}

proof fn lemma_payload_round_trip(body: MessageBodyView)
    requires
        body.payload_error() is None,
        body.sized(),
    ensures
        MessageBodyView::parse(body.kind(), body.payload()) == Ok::<MessageBodyView, ErrorView>(
            body,
        ),
{
    let payload = body.payload();
    bytes::lemma_be_bounds();
    match body {
        MessageBodyView::Request { task_id, piece_number } => {
            let task = text::utf8(task_id);
            text::lemma_utf8_properties(task_id);
            vstd::utf8::encode_utf8_decode_utf8(task_id);
            bytes::lemma_be(piece_number as nat, 4);
            bytes::lemma_be(task.len(), 4);
            assert(payload.subrange(0, 4) =~= bytes::be(piece_number as nat, 4));
            assert(payload.subrange(4, 8) =~= bytes::be(task.len(), 4));
            assert(payload.skip(8) =~= task);
        },
        MessageBodyView::Metadata { offset, total_length, digest } => {
            bytes::lemma_be(offset as nat, 8);
            bytes::lemma_be(total_length as nat, 8);
            assert(payload.subrange(0, 8) =~= bytes::be(offset as nat, 8));
            assert(payload.subrange(8, 16) =~= bytes::be(total_length as nat, 8));
            assert(payload.skip(16) =~= digest);
        },
        MessageBodyView::End { total_length, chunk_count } => {
            bytes::lemma_be(total_length as nat, 8);
            bytes::lemma_be(chunk_count as nat, 4);
            assert(payload.subrange(0, 8) =~= bytes::be(total_length as nat, 8));
            assert(payload.subrange(8, 12) =~= bytes::be(chunk_count as nat, 4));
        },
        MessageBodyView::Error { code, message } => {
            text::lemma_utf8_properties(message);
            vstd::utf8::encode_utf8_decode_utf8(message);
            bytes::lemma_be(code as nat, 4);
            assert(payload.subrange(0, 4) =~= bytes::be(code as nat, 4));
            assert(payload.skip(4) =~= text::utf8(message));
        },
        _ => {},
    }
}

proof fn lemma_payload_of_parse(kind: MessageType, payload: Seq<u8>)
    requires
        MessageBodyView::parse(kind, payload) is Ok,
        payload.len() <= u32::MAX,
    ensures
        ({
            let body = MessageBodyView::parse(kind, payload)->Ok_0;
            &&& body.kind() == kind
            &&& body.payload() == payload
            &&& body.payload_error() is None
            &&& body.sized()
        }),
{
    bytes::lemma_be_bounds();
    match kind {
        MessageType::Request => {
            let task = payload.skip(8);
            vstd::utf8::decode_utf8_encode_utf8(task);
            text::lemma_utf8_properties(vstd::utf8::decode_utf8(task));
            bytes::lemma_be_of_value(payload.subrange(0, 4));
            bytes::lemma_be_of_value(payload.subrange(4, 8));
            assert(payload =~= payload.subrange(0, 4) + payload.subrange(4, 8) + task);
        },
        MessageType::Metadata => {
            bytes::lemma_be_of_value(payload.subrange(0, 8));
            bytes::lemma_be_of_value(payload.subrange(8, 16));
            assert(payload =~= payload.subrange(0, 8) + payload.subrange(8, 16) + payload.skip(16));
        },
        MessageType::End => {
            bytes::lemma_be_of_value(payload.subrange(0, 8));
            bytes::lemma_be_of_value(payload.subrange(8, 12));
            assert(payload =~= payload.subrange(0, 8) + payload.subrange(8, 12));
        },
        MessageType::Error => {
            let message = payload.skip(4);
            vstd::utf8::decode_utf8_encode_utf8(message);
            text::lemma_utf8_properties(vstd::utf8::decode_utf8(message));
            bytes::lemma_be_of_value(payload.subrange(0, 4));
            assert(payload =~= payload.subrange(0, 4) + message);
        },
        _ => {},
    }
}

/// Decoding the frame of an encodable message gives that message.
pub proof fn message_decode_undoes_encode(message: MessageView)
    requires
        message.encode_error() is None,
        message.body.sized(),
    ensures
        MessageView::parse(message.wire()) == Ok::<MessageView, ErrorView>(message),
{
    frame::lemma_frame_fields(
        super::DATA_VERSION,
        message.body.kind().wire(),
        message.request_id,
        message.sequence,
        message.body.payload(),
    );
    lemma_payload_round_trip(message.body);
}

/// A frame that decodes is the frame of the message that it decodes to, and that message can be
/// encoded: no two frames decode to one message.
pub proof fn message_encode_undoes_decode(input: Seq<u8>)
    requires
        MessageView::parse(input) is Ok,
    ensures
        ({
            let message = MessageView::parse(input)->Ok_0;
            &&& message.encode_error() is None
            &&& message.body.sized()
            &&& message.wire() == input
        }),
{
    bytes::lemma_be_bounds();
    bytes::lemma_be_of_value(input.subrange(6, 8));
    bytes::lemma_be_of_value(input.subrange(8, 16));
    bytes::lemma_be_of_value(input.subrange(16, 20));
    bytes::lemma_be_of_value(input.subrange(20, 24));
    let kind = MessageType::of_wire(frame::field(input, 6, 2))->Ok_0;
    lemma_payload_of_parse(kind, input.skip(24));
    frame::lemma_frame_of_fields(input);
}

/// No input decodes as both a version 2 and a version 3 message.
pub proof fn decoders_do_not_reinterpret_each_other(input: Seq<u8>)
    ensures
        !(MessageView::parse(input) is Ok && IntegrationView::parse(input) is Ok),
{
}

} // verus!
