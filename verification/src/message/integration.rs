//! The integration message format, version 3.

use vstd::prelude::*;

use super::descriptor::{DigestAlgorithm, DigestDescriptor, DigestView};
use super::frame;
use super::frame::encode_frame;
use crate::bytes;
use crate::bytes::{copy_range, push_bytes, push_u16, push_u32, push_u64, read_u16, read_u32, read_u64};
use crate::error::{protocol, Error, ErrorView, Result};
use crate::text;
use crate::text::{text_from_utf8, with_hex, with_number, with_numbers, Text};

verus! {

/// The type of an integration message.
#[derive(Clone, Copy, Debug, Eq, PartialEq, Structural)]
pub enum IntegrationMessageTypeV3 {
    Request,
    Metadata,
    Data,
    End,
    Error,
}

impl IntegrationMessageTypeV3 {
    /// The number that stands for the type on the wire.
    pub open spec fn wire(self) -> u16 {
        match self {
            IntegrationMessageTypeV3::Request => 3,
            IntegrationMessageTypeV3::Metadata => 4,
            IntegrationMessageTypeV3::Data => 5,
            IntegrationMessageTypeV3::End => 6,
            IntegrationMessageTypeV3::Error => 7,
        }
    }

    /// The type that a wire number stands for.
    pub open spec fn of_wire(value: nat) -> core::result::Result<Self, ErrorView> {
        if value == 3 {
            Ok(IntegrationMessageTypeV3::Request)
        } else if value == 4 {
            Ok(IntegrationMessageTypeV3::Metadata)
        } else if value == 5 {
            Ok(IntegrationMessageTypeV3::Data)
        } else if value == 6 {
            Ok(IntegrationMessageTypeV3::End)
        } else if value == 7 {
            Ok(IntegrationMessageTypeV3::Error)
        } else {
            Err(
                ErrorView::Protocol("unknown integration message type "@ + text::decimal(value) + ""@),
            )
        }
    }

    pub(crate) fn wire_value(self) -> (value: u16)
        ensures
            value == self.wire(),
    {
        match self {
            IntegrationMessageTypeV3::Request => 3,
            IntegrationMessageTypeV3::Metadata => 4,
            IntegrationMessageTypeV3::Data => 5,
            IntegrationMessageTypeV3::End => 6,
            IntegrationMessageTypeV3::Error => 7,
        }
    }

    pub(crate) fn from_wire(value: u16) -> (kind: Result<Self>)
        ensures
            match kind {
                Ok(kind) => Self::of_wire(value as nat) == Ok::<Self, ErrorView>(kind),
                Err(error) => Self::of_wire(value as nat) == Err::<Self, ErrorView>(error@),
            },
    {
        match value {
            3 => Ok(IntegrationMessageTypeV3::Request),
            4 => Ok(IntegrationMessageTypeV3::Metadata),
            5 => Ok(IntegrationMessageTypeV3::Data),
            6 => Ok(IntegrationMessageTypeV3::End),
            7 => Ok(IntegrationMessageTypeV3::Error),
            _ => Err(
                Error::Protocol(with_number("unknown integration message type ", value as u64, "")),
            ),
        }
    }
}

/// What an integration message says.
#[derive(Clone, Debug, Eq, PartialEq)]
pub enum IntegrationMessageBodyV3 {
    Request { task_id: String, piece_number: u32 },
    Metadata { offset: u64, total_length: u64, digest: DigestDescriptor },
    Data(Vec<u8>),
    End { total_length: u64, chunk_count: u32 },
    Error { code: u32, message: String },
}

/// An [`IntegrationMessageBodyV3`] with its texts and payloads as sequences.
pub enum IntegrationBodyView {
    Request { task_id: Seq<char>, piece_number: u32 },
    Metadata { offset: u64, total_length: u64, digest: DigestView },
    Data(Seq<u8>),
    End { total_length: u64, chunk_count: u32 },
    Error { code: u32, message: Seq<char> },
}

impl View for IntegrationMessageBodyV3 {
    type V = IntegrationBodyView;

    open spec fn view(&self) -> IntegrationBodyView {
        match self {
            IntegrationMessageBodyV3::Request { task_id, piece_number } => {
                IntegrationBodyView::Request { task_id: task_id@, piece_number: *piece_number }
            },
            IntegrationMessageBodyV3::Metadata { offset, total_length, digest } => {
                IntegrationBodyView::Metadata {
                    offset: *offset,
                    total_length: *total_length,
                    digest: digest@,
                }
            },
            IntegrationMessageBodyV3::Data(payload) => IntegrationBodyView::Data(payload@),
            IntegrationMessageBodyV3::End { total_length, chunk_count } => {
                IntegrationBodyView::End { total_length: *total_length, chunk_count: *chunk_count }
            },
            IntegrationMessageBodyV3::Error { code, message } => {
                IntegrationBodyView::Error { code: *code, message: message@ }
            },
        }
    }
}

/// A version 3 message.
#[derive(Clone, Debug, Eq, PartialEq)]
pub struct IntegrationMessageV3 {
    pub request_id: u64,
    pub sequence: u32,
    pub body: IntegrationMessageBodyV3,
}

/// An [`IntegrationMessageV3`] with its body as sequences.
pub struct IntegrationView {
    pub request_id: u64,
    pub sequence: u32,
    pub body: IntegrationBodyView,
}

impl View for IntegrationMessageV3 {
    type V = IntegrationView;

    open spec fn view(&self) -> IntegrationView {
        IntegrationView {
            request_id: self.request_id,
            sequence: self.sequence,
            body: self.body@,
        }
    }
}

impl IntegrationBodyView {
    /// The message type of the body.
    pub open spec fn kind(self) -> IntegrationMessageTypeV3 {
        match self {
            IntegrationBodyView::Request { .. } => IntegrationMessageTypeV3::Request,
            IntegrationBodyView::Metadata { .. } => IntegrationMessageTypeV3::Metadata,
            IntegrationBodyView::Data(_) => IntegrationMessageTypeV3::Data,
            IntegrationBodyView::End { .. } => IntegrationMessageTypeV3::End,
            IntegrationBodyView::Error { .. } => IntegrationMessageTypeV3::Error,
        }
    }

    /// The payload bytes of the body.
    pub open spec fn payload(self) -> Seq<u8> {
        match self {
            IntegrationBodyView::Request { task_id, piece_number } => {
                bytes::be(piece_number as nat, 4) + bytes::be(text::utf8(task_id).len(), 4)
                    + text::utf8(task_id)
            },
            IntegrationBodyView::Metadata { offset, total_length, digest } => {
                bytes::be(offset as nat, 8) + bytes::be(total_length as nat, 8) + bytes::be(
                    digest.algorithm.wire() as nat,
                    2,
                ) + bytes::be(text::utf8(digest.value).len(), 2) + text::utf8(digest.value)
            },
            IntegrationBodyView::Data(payload) => payload,
            IntegrationBodyView::End { total_length, chunk_count } => {
                bytes::be(total_length as nat, 8) + bytes::be(chunk_count as nat, 4)
            },
            IntegrationBodyView::Error { code, message } => {
                bytes::be(code as nat, 4) + text::utf8(message)
            },
        }
    }

    /// The body that a payload of the given type spells, or the error that it is refused with.
    pub open spec fn parse(kind: IntegrationMessageTypeV3, payload: Seq<u8>) -> core::result::Result<
        Self,
        ErrorView,
    > {
        match kind {
            IntegrationMessageTypeV3::Request => {
                let task = payload.skip(8);
                if payload.len() < 8 {
                    Err(ErrorView::Protocol("truncated Request payload"@))
                } else if frame::field(payload, 4, 4) == 0 || task.len() != frame::field(
                    payload,
                    4,
                    4,
                ) {
                    Err(ErrorView::Protocol("invalid Request task_id length"@))
                } else if !vstd::utf8::valid_utf8(task) {
                    Err(ErrorView::Protocol("Request task_id is not UTF-8"@))
                } else {
                    Ok(
                        IntegrationBodyView::Request {
                            task_id: vstd::utf8::decode_utf8(task),
                            piece_number: frame::field(payload, 0, 4) as u32,
                        },
                    )
                }
            },
            IntegrationMessageTypeV3::Metadata => {
                let value = payload.skip(20);
                let length = frame::field(payload, 18, 2);
                if payload.len() < 20 {
                    Err(ErrorView::Protocol("truncated Metadata v3 payload"@))
                } else if length == 0 || length > 64 {
                    Err(
                        ErrorView::Protocol(
                            "Metadata v3 digest length "@ + text::decimal(length)
                                + " is outside 1..=64"@,
                        ),
                    )
                } else if value.len() != length {
                    Err(
                        ErrorView::Protocol(
                            "Metadata v3 digest length "@ + text::decimal(length)
                                + " disagrees with payload length "@ + text::decimal(payload.len())
                                + ""@,
                        ),
                    )
                } else {
                    match DigestAlgorithm::of_wire(frame::field(payload, 16, 2)) {
                        Err(error) => Err(error),
                        Ok(algorithm) => {
                            let digest = DigestView {
                                algorithm,
                                value: vstd::utf8::decode_utf8(value),
                            };
                            if !vstd::utf8::valid_utf8(value) {
                                Err(ErrorView::Protocol("Metadata v3 digest is not UTF-8"@))
                            } else if digest.error() is Some {
                                Err(digest.error()->0)
                            } else {
                                Ok(
                                    IntegrationBodyView::Metadata {
                                        offset: frame::field(payload, 0, 8) as u64,
                                        total_length: frame::field(payload, 8, 8) as u64,
                                        digest,
                                    },
                                )
                            }
                        },
                    }
                }
            },
            IntegrationMessageTypeV3::Data => Ok(IntegrationBodyView::Data(payload)),
            IntegrationMessageTypeV3::End => {
                if payload.len() != 12 {
                    Err(ErrorView::Protocol("End payload length must be 12"@))
                } else {
                    Ok(
                        IntegrationBodyView::End {
                            total_length: frame::field(payload, 0, 8) as u64,
                            chunk_count: frame::field(payload, 8, 4) as u32,
                        },
                    )
                }
            },
            IntegrationMessageTypeV3::Error => {
                let message = payload.skip(4);
                if payload.len() < 5 {
                    Err(ErrorView::Protocol("truncated Error payload"@))
                } else if !vstd::utf8::valid_utf8(message) {
                    Err(ErrorView::Protocol("Error message is not UTF-8"@))
                } else {
                    Ok(
                        IntegrationBodyView::Error {
                            code: frame::field(payload, 0, 4) as u32,
                            message: vstd::utf8::decode_utf8(message),
                        },
                    )
                }
            },
        }
    }
}

impl IntegrationView {
    /// The error that the message is refused with, on either side of the wire.
    pub open spec fn common_error(self) -> Option<ErrorView> {
        if self.request_id == 0 {
            Some(ErrorView::Protocol("integration request_id must be non-zero"@))
        } else {
            match self.body {
                IntegrationBodyView::Request { task_id, .. } => {
                    if self.sequence != 0 || task_id.len() == 0 {
                        Some(
                            ErrorView::Protocol(
                                "Request requires sequence zero and non-empty task_id"@,
                            ),
                        )
                    } else {
                        None
                    }
                },
                IntegrationBodyView::Metadata { digest, .. } => {
                    if self.sequence != 0 {
                        Some(ErrorView::Protocol("Metadata sequence must be zero"@))
                    } else {
                        digest.error()
                    }
                },
                IntegrationBodyView::Data(payload) => {
                    if payload.len() == 0 {
                        Some(ErrorView::Protocol("Data payload must not be empty"@))
                    } else {
                        None
                    }
                },
                IntegrationBodyView::End { chunk_count, .. } => {
                    if chunk_count != self.sequence {
                        Some(ErrorView::Protocol("End chunk count must equal sequence"@))
                    } else {
                        None
                    }
                },
                IntegrationBodyView::Error { message, .. } => {
                    if self.sequence != 0 || message.len() == 0 {
                        Some(
                            ErrorView::Protocol(
                                "Error requires sequence zero and non-empty message"@,
                            ),
                        )
                    } else {
                        None
                    }
                },
            }
        }
    }

    /// The error that encoding the message fails with, if it fails.
    pub open spec fn encode_error(self) -> Option<ErrorView> {
        if self.common_error() is Some {
            self.common_error()
        } else if self.body matches IntegrationBodyView::Request { task_id, .. } && text::utf8(
            task_id,
        ).len() > u32::MAX {
            Some(ErrorView::Protocol("Request task_id exceeds u32"@))
        } else if self.body.payload().len() > u32::MAX {
            Some(ErrorView::Protocol("integration payload exceeds u32"@))
        } else if self.body.payload().len() + 24 > usize::MAX {
            Some(ErrorView::Protocol("integration frame length overflow"@))
        } else {
            None
        }
    }

    /// The frame of the message.
    pub open spec fn wire(self) -> Seq<u8> {
        frame::frame(
            super::INTEGRATION_VERSION as nat,
            self.body.kind().wire() as nat,
            self.request_id as nat,
            self.sequence as nat,
            self.body.payload(),
        )
    }

    /// The message that a frame spells, or the error that it is refused with.
    pub open spec fn parse(input: Seq<u8>) -> core::result::Result<Self, ErrorView> {
        let magic = frame::field(input, 0, 4);
        let version = frame::field(input, 4, 2);
        let length = frame::field(input, 20, 4);
        if input.len() < 24 {
            Err(ErrorView::Protocol("truncated integration message header"@))
        } else if magic != super::DATA_MAGIC {
            Err(ErrorView::Protocol("invalid data magic 0x"@ + text::hex(magic, 8) + ""@))
        } else if version != super::INTEGRATION_VERSION {
            Err(
                ErrorView::Protocol(
                    "unsupported integration version "@ + text::decimal(version) + ""@,
                ),
            )
        } else {
            match IntegrationMessageTypeV3::of_wire(frame::field(input, 6, 2)) {
                Err(error) => Err(error),
                Ok(kind) => {
                    if length + 24 > usize::MAX {
                        Err(ErrorView::Protocol("integration frame length overflow"@))
                    } else if input.len() != length + 24 {
                        Err(
                            ErrorView::Protocol(
                                "integration payload length "@ + text::decimal(length)
                                    + " disagrees with frame length "@ + text::decimal(input.len())
                                    + ""@,
                            ),
                        )
                    } else {
                        match IntegrationBodyView::parse(kind, input.skip(24)) {
                            Err(error) => Err(error),
                            Ok(body) => {
                                let message = IntegrationView {
                                    request_id: frame::field(input, 8, 8) as u64,
                                    sequence: frame::field(input, 16, 4) as u32,
                                    body,
                                };
                                match message.common_error() {
                                    Some(error) => Err(error),
                                    None => Ok(message),
                                }
                            },
                        }
                    }
                },
            }
        }
    }
}

impl IntegrationMessageV3 {
    pub fn request<T: Text>(request_id: u64, task_id: T, piece_number: u32) -> (message: Self)
        ensures
            message@ == (IntegrationView {
                request_id,
                sequence: 0,
                body: IntegrationBodyView::Request { task_id: task_id.text(), piece_number },
            }),
    {
        IntegrationMessageV3 {
            request_id,
            sequence: 0,
            body: IntegrationMessageBodyV3::Request {
                task_id: task_id.into_string(),
                piece_number,
            },
        }
    }

    pub fn metadata(
        request_id: u64,
        offset: u64,
        total_length: u64,
        digest: DigestDescriptor,
    ) -> (message: Self)
        ensures
            message@ == (IntegrationView {
                request_id,
                sequence: 0,
                body: IntegrationBodyView::Metadata { offset, total_length, digest: digest@ },
            }),
    {
        IntegrationMessageV3 {
            request_id,
            sequence: 0,
            body: IntegrationMessageBodyV3::Metadata { offset, total_length, digest },
        }
    }

    pub fn data(request_id: u64, sequence: u32, payload: Vec<u8>) -> (message: Self)
        ensures
            message@ == (IntegrationView {
                request_id,
                sequence,
                body: IntegrationBodyView::Data(payload@),
            }),
    {
        IntegrationMessageV3 {
            request_id,
            sequence,
            body: IntegrationMessageBodyV3::Data(payload),
        }
    }

    pub fn end(request_id: u64, sequence: u32, total_length: u64) -> (message: Self)
        ensures
            message@ == (IntegrationView {
                request_id,
                sequence,
                body: IntegrationBodyView::End { total_length, chunk_count: sequence },
            }),
    {
        IntegrationMessageV3 {
            request_id,
            sequence,
            body: IntegrationMessageBodyV3::End { total_length, chunk_count: sequence },
        }
    }

    pub fn error<T: Text>(request_id: u64, code: u32, message: T) -> (error: Self)
        ensures
            error@ == (IntegrationView {
                request_id,
                sequence: 0,
                body: IntegrationBodyView::Error { code, message: message.text() },
            }),
    {
        IntegrationMessageV3 {
            request_id,
            sequence: 0,
            body: IntegrationMessageBodyV3::Error { code, message: message.into_string() },
        }
    }

    pub fn message_type(&self) -> (kind: IntegrationMessageTypeV3)
        ensures
            kind == self@.body.kind(),
    {
        match self.body {
            IntegrationMessageBodyV3::Request { .. } => IntegrationMessageTypeV3::Request,
            IntegrationMessageBodyV3::Metadata { .. } => IntegrationMessageTypeV3::Metadata,
            IntegrationMessageBodyV3::Data(_) => IntegrationMessageTypeV3::Data,
            IntegrationMessageBodyV3::End { .. } => IntegrationMessageTypeV3::End,
            IntegrationMessageBodyV3::Error { .. } => IntegrationMessageTypeV3::Error,
        }
    }

    /// The frame of the message.
    pub fn encode(&self) -> (encoded: Result<Vec<u8>>)
        ensures
            match encoded {
                Ok(out) => self@.encode_error() is None && out@ == self@.wire(),
                Err(error) => self@.encode_error() == Some(error@),
            },
    {
        match self.validate_common() {
            Ok(()) => {},
            Err(error) => {
                return Err(error);
            },
        }
        let payload = match self.encode_payload() {
            Ok(payload) => payload,
            Err(error) => {
                return Err(error);
            },
        };
        if payload.len() as u64 > 0xffff_ffff {
            return Err(protocol("integration payload exceeds u32"));
        }
        if payload.len() > usize::MAX - super::DATA_HEADER_LEN {
            return Err(protocol("integration frame length overflow"));
        }
        Ok(
            encode_frame(
                super::INTEGRATION_VERSION,
                self.message_type().wire_value(),
                self.request_id,
                self.sequence,
                payload.as_slice(),
            ),
        )
    }

    /// The message that a frame spells.
    pub fn decode(input: &[u8]) -> (decoded: Result<Self>)
        ensures
            match decoded {
                Ok(message) => IntegrationView::parse(input@) == Ok::<IntegrationView, ErrorView>(
                    message@,
                ),
                Err(error) => IntegrationView::parse(input@) == Err::<IntegrationView, ErrorView>(
                    error@,
                ),
            },
    {
        if input.len() < super::DATA_HEADER_LEN {
            return Err(protocol("truncated integration message header"));
        }
        let magic: u32 = read_u32(input, 0);
        if magic != super::DATA_MAGIC {
            return Err(Error::Protocol(with_hex("invalid data magic 0x", magic as u64, 8, "")));
        }
        let version: u16 = read_u16(input, 4);
        if version != super::INTEGRATION_VERSION {
            return Err(
                Error::Protocol(with_number("unsupported integration version ", version as u64, "")),
            );
        }
        let kind = match IntegrationMessageTypeV3::from_wire(read_u16(input, 6)) {
            Ok(kind) => kind,
            Err(error) => {
                return Err(error);
            },
        };
        let request_id: u64 = read_u64(input, 8);
        let sequence: u32 = read_u32(input, 16);
        let length: usize = read_u32(input, 20) as usize;
        if length > usize::MAX - super::DATA_HEADER_LEN {
            return Err(protocol("integration frame length overflow"));
        }
        if input.len() != super::DATA_HEADER_LEN + length {
            return Err(
                Error::Protocol(
                    with_numbers(
                        "integration payload length ",
                        length as u64,
                        " disagrees with frame length ",
                        input.len() as u64,
                        "",
                    ),
                ),
            );
        }
        let payload = vstd::slice::slice_subrange(input, super::DATA_HEADER_LEN, input.len());
        assert(payload@ =~= input@.skip(24));
        let body = match Self::decode_payload(kind, payload) {
            Ok(body) => body,
            Err(error) => {
                return Err(error);
            },
        };
        let message = IntegrationMessageV3 { request_id, sequence, body };
        match message.validate_common() {
            Ok(()) => Ok(message),
            Err(error) => Err(error),
        }
    }

    fn validate_common(&self) -> (valid: Result<()>)
        ensures
            match valid {
                Ok(()) => self@.common_error() is None,
                Err(error) => self@.common_error() == Some(error@),
            },
    {
        if self.request_id == 0 {
            return Err(protocol("integration request_id must be non-zero"));
        }
        match &self.body {
            IntegrationMessageBodyV3::Request { task_id, .. } => {
                if self.sequence != 0 || task_id.as_str().is_empty() {
                    return Err(protocol("Request requires sequence zero and non-empty task_id"));
                }
            },
            IntegrationMessageBodyV3::Metadata { digest, .. } => {
                if self.sequence != 0 {
                    return Err(protocol("Metadata sequence must be zero"));
                }
                return digest.validate();
            },
            IntegrationMessageBodyV3::Data(payload) => {
                if payload.len() == 0 {
                    return Err(protocol("Data payload must not be empty"));
                }
            },
            IntegrationMessageBodyV3::End { chunk_count, .. } => {
                if *chunk_count != self.sequence {
                    return Err(protocol("End chunk count must equal sequence"));
                }
            },
            IntegrationMessageBodyV3::Error { message, .. } => {
                if self.sequence != 0 || message.as_str().is_empty() {
                    return Err(protocol("Error requires sequence zero and non-empty message"));
                }
            },
        }
        Ok(())
    }

    fn encode_payload(&self) -> (encoded: Result<Vec<u8>>)
        requires
            self@.common_error() is None,
        ensures
            match encoded {
                Ok(out) => {
                    &&& out@ == self@.body.payload()
                    &&& self@.body matches IntegrationBodyView::Request { task_id, .. }
                        ==> text::utf8(task_id).len() <= u32::MAX
                },
                Err(error) => {
                    &&& self@.body matches IntegrationBodyView::Request { task_id, .. }
                    &&& text::utf8(task_id).len() > u32::MAX
                    &&& error@ == ErrorView::Protocol("Request task_id exceeds u32"@)
                },
            },
    {
        let mut out: Vec<u8> = Vec::new();
        match &self.body {
            IntegrationMessageBodyV3::Request { task_id, piece_number } => {
                let task = task_id.as_str().as_bytes();
                if task.len() as u64 > 0xffff_ffff {
                    return Err(protocol("Request task_id exceeds u32"));
                }
                push_u32(&mut out, *piece_number);
                push_u32(&mut out, task.len() as u32);
                push_bytes(&mut out, task);
                assert(out@ =~= self@.body.payload());
            },
            IntegrationMessageBodyV3::Metadata { offset, total_length, digest } => {
                let value = digest.value.as_str().as_bytes();
                push_u64(&mut out, *offset);
                push_u64(&mut out, *total_length);
                push_u16(&mut out, digest.algorithm.wire_value());
                push_u16(&mut out, value.len() as u16);
                push_bytes(&mut out, value);
                assert(out@ =~= self@.body.payload());
            },
            IntegrationMessageBodyV3::Data(payload) => {
                push_bytes(&mut out, payload.as_slice());
                assert(out@ =~= self@.body.payload());
            },
            IntegrationMessageBodyV3::End { total_length, chunk_count } => {
                push_u64(&mut out, *total_length);
                push_u32(&mut out, *chunk_count);
                assert(out@ =~= self@.body.payload());
            },
            IntegrationMessageBodyV3::Error { code, message } => {
                push_u32(&mut out, *code);
                push_bytes(&mut out, message.as_str().as_bytes());
                assert(out@ =~= self@.body.payload());
            },
        }
        Ok(out)
    }

    fn decode_payload(kind: IntegrationMessageTypeV3, payload: &[u8]) -> (decoded: Result<
        IntegrationMessageBodyV3,
    >)
        ensures
            match decoded {
                Ok(body) => IntegrationBodyView::parse(kind, payload@) == Ok::<
                    IntegrationBodyView,
                    ErrorView,
                >(body@),
                Err(error) => IntegrationBodyView::parse(kind, payload@) == Err::<
                    IntegrationBodyView,
                    ErrorView,
                >(error@),
            },
    {
        match kind {
            IntegrationMessageTypeV3::Request => {
                if payload.len() < 8 {
                    return Err(protocol("truncated Request payload"));
                }
                let piece_number: u32 = read_u32(payload, 0);
                let task_len: usize = read_u32(payload, 4) as usize;
                if task_len == 0 || payload.len() - 8 != task_len {
                    return Err(protocol("invalid Request task_id length"));
                }
                let task = vstd::slice::slice_subrange(payload, 8, payload.len());
                assert(task@ =~= payload@.skip(8));
                match text_from_utf8(task) {
                    Some(task_id) => {
                        proof {
                            vstd::utf8::encode_utf8_decode_utf8(task_id@);
                        }
                        Ok(IntegrationMessageBodyV3::Request { task_id, piece_number })
                    },
                    None => Err(protocol("Request task_id is not UTF-8")),
                }
            },
            IntegrationMessageTypeV3::Metadata => {
                if payload.len() < 20 {
                    return Err(protocol("truncated Metadata v3 payload"));
                }
                let digest_len: usize = read_u16(payload, 18) as usize;
                if digest_len == 0 || digest_len > super::MAX_DIGEST_VALUE_LEN {
                    return Err(
                        Error::Protocol(
                            with_number(
                                "Metadata v3 digest length ",
                                digest_len as u64,
                                " is outside 1..=64",
                            ),
                        ),
                    );
                }
                if payload.len() != 20 + digest_len {
                    return Err(
                        Error::Protocol(
                            with_numbers(
                                "Metadata v3 digest length ",
                                digest_len as u64,
                                " disagrees with payload length ",
                                payload.len() as u64,
                                "",
                            ),
                        ),
                    );
                }
                let algorithm = match DigestAlgorithm::from_wire(read_u16(payload, 16)) {
                    Ok(algorithm) => algorithm,
                    Err(error) => {
                        return Err(error);
                    },
                };
                let value_bytes = vstd::slice::slice_subrange(payload, 20, payload.len());
                assert(value_bytes@ =~= payload@.skip(20));
                let value = match text_from_utf8(value_bytes) {
                    Some(value) => value,
                    None => {
                        return Err(protocol("Metadata v3 digest is not UTF-8"));
                    },
                };
                proof {
                    vstd::utf8::encode_utf8_decode_utf8(value@);
                }
                match DigestDescriptor::new(algorithm, value) {
                    Ok(digest) => Ok(
                        IntegrationMessageBodyV3::Metadata {
                            offset: read_u64(payload, 0),
                            total_length: read_u64(payload, 8),
                            digest,
                        },
                    ),
                    Err(error) => Err(error),
                }
            },
            IntegrationMessageTypeV3::Data => {
                let copy = copy_range(payload, 0, payload.len());
                assert(copy@ =~= payload@);
                Ok(IntegrationMessageBodyV3::Data(copy))
            },
            IntegrationMessageTypeV3::End => {
                if payload.len() != 12 {
                    return Err(protocol("End payload length must be 12"));
                }
                Ok(
                    IntegrationMessageBodyV3::End {
                        total_length: read_u64(payload, 0),
                        chunk_count: read_u32(payload, 8),
                    },
                )
            },
            IntegrationMessageTypeV3::Error => {
                if payload.len() < 5 {
                    return Err(protocol("truncated Error payload"));
                }
                let message_bytes = vstd::slice::slice_subrange(payload, 4, payload.len());
                assert(message_bytes@ =~= payload@.skip(4));
                match text_from_utf8(message_bytes) {
                    Some(message) => {
                        proof {
                            vstd::utf8::encode_utf8_decode_utf8(message@);
                        }
                        Ok(
                            IntegrationMessageBodyV3::Error { code: read_u32(payload, 0), message },
                        )
                    },
                    None => Err(protocol("Error message is not UTF-8")),
                }
            },
        }
    }
}

proof fn lemma_payload_round_trip(body: IntegrationBodyView)
    requires
        body matches IntegrationBodyView::Request { task_id, .. } ==> 0 < text::utf8(task_id).len()
            <= u32::MAX,
        body matches IntegrationBodyView::Metadata { digest, .. } ==> digest.error() is None,
        body matches IntegrationBodyView::Error { message, .. } ==> message.len() > 0,
    ensures
        IntegrationBodyView::parse(body.kind(), body.payload()) == Ok::<
            IntegrationBodyView,
            ErrorView,
        >(body),
{
    let payload = body.payload();
    bytes::lemma_be_bounds();
    match body {
        IntegrationBodyView::Request { task_id, piece_number } => {
            let task = text::utf8(task_id);
            text::lemma_utf8_properties(task_id);
            vstd::utf8::encode_utf8_decode_utf8(task_id);
            bytes::lemma_be(piece_number as nat, 4);
            bytes::lemma_be(task.len(), 4);
            assert(payload.subrange(0, 4) =~= bytes::be(piece_number as nat, 4));
            assert(payload.subrange(4, 8) =~= bytes::be(task.len(), 4));
            assert(payload.skip(8) =~= task);
        },
        IntegrationBodyView::Metadata { offset, total_length, digest } => {
            let value = text::utf8(digest.value);
            text::lemma_utf8_properties(digest.value);
            vstd::utf8::encode_utf8_decode_utf8(digest.value);
            bytes::lemma_be(offset as nat, 8);
            bytes::lemma_be(total_length as nat, 8);
            bytes::lemma_be(digest.algorithm.wire() as nat, 2);
            bytes::lemma_be(value.len(), 2);
            assert(payload.subrange(0, 8) =~= bytes::be(offset as nat, 8));
            assert(payload.subrange(8, 16) =~= bytes::be(total_length as nat, 8));
            assert(payload.subrange(16, 18) =~= bytes::be(digest.algorithm.wire() as nat, 2));
            assert(payload.subrange(18, 20) =~= bytes::be(value.len(), 2));
            assert(payload.skip(20) =~= value);
        },
        IntegrationBodyView::Data(_) => {},
        IntegrationBodyView::End { total_length, chunk_count } => {
            bytes::lemma_be(total_length as nat, 8);
            bytes::lemma_be(chunk_count as nat, 4);
            assert(payload.subrange(0, 8) =~= bytes::be(total_length as nat, 8));
            assert(payload.subrange(8, 12) =~= bytes::be(chunk_count as nat, 4));
        },
        IntegrationBodyView::Error { code, message } => {
            text::lemma_utf8_properties(message);
            vstd::utf8::encode_utf8_decode_utf8(message);
            bytes::lemma_be(code as nat, 4);
            assert(payload.subrange(0, 4) =~= bytes::be(code as nat, 4));
            assert(payload.skip(4) =~= text::utf8(message));
        },
    }
}

proof fn lemma_payload_of_parse(kind: IntegrationMessageTypeV3, payload: Seq<u8>)
    requires
        IntegrationBodyView::parse(kind, payload) is Ok,
    ensures
        ({
            let body = IntegrationBodyView::parse(kind, payload)->Ok_0;
            &&& body.kind() == kind
            &&& body.payload() == payload
        }),
{
    let body = IntegrationBodyView::parse(kind, payload)->Ok_0;
    bytes::lemma_be_bounds();
    match kind {
        IntegrationMessageTypeV3::Request => {
            vstd::utf8::decode_utf8_encode_utf8(payload.skip(8));
            bytes::lemma_be_of_value(payload.subrange(0, 4));
            bytes::lemma_be_of_value(payload.subrange(4, 8));
            assert(payload =~= payload.subrange(0, 4) + payload.subrange(4, 8) + payload.skip(8));
        },
        IntegrationMessageTypeV3::Metadata => {
            vstd::utf8::decode_utf8_encode_utf8(payload.skip(20));
            bytes::lemma_be_of_value(payload.subrange(0, 8));
            bytes::lemma_be_of_value(payload.subrange(8, 16));
            bytes::lemma_be_of_value(payload.subrange(16, 18));
            bytes::lemma_be_of_value(payload.subrange(18, 20));
            assert(payload =~= payload.subrange(0, 8) + payload.subrange(8, 16) + payload.subrange(
                16,
                18,
            ) + payload.subrange(18, 20) + payload.skip(20));
        },
        IntegrationMessageTypeV3::Data => {},
        IntegrationMessageTypeV3::End => {
            bytes::lemma_be_of_value(payload.subrange(0, 8));
            bytes::lemma_be_of_value(payload.subrange(8, 12));
            assert(payload =~= payload.subrange(0, 8) + payload.subrange(8, 12));
        },
        IntegrationMessageTypeV3::Error => {
            vstd::utf8::decode_utf8_encode_utf8(payload.skip(4));
            bytes::lemma_be_of_value(payload.subrange(0, 4));
            assert(payload =~= payload.subrange(0, 4) + payload.skip(4));
        },
    }
}

/// Decoding the frame of an encodable message gives that message.
pub proof fn integration_decode_undoes_encode(message: IntegrationView)
    requires
        message.encode_error() is None,
    ensures
        IntegrationView::parse(message.wire()) == Ok::<IntegrationView, ErrorView>(message),
{
    let payload = message.body.payload();
    frame::lemma_frame_fields(
        super::INTEGRATION_VERSION,
        message.body.kind().wire(),
        message.request_id,
        message.sequence,
        payload,
    );
    if let IntegrationBodyView::Request { task_id, .. } = message.body {
        text::lemma_utf8_properties(task_id);
    }
    lemma_payload_round_trip(message.body);
}

/// A frame that decodes is the frame of the message that it decodes to, and that message can be
/// encoded: no two frames decode to one message.
pub proof fn integration_encode_undoes_decode(input: Seq<u8>)
    requires
        IntegrationView::parse(input) is Ok,
    ensures
        ({
            let message = IntegrationView::parse(input)->Ok_0;
            &&& message.encode_error() is None
            &&& message.wire() == input
        }),
{
    let message = IntegrationView::parse(input)->Ok_0;
    let kind = message.body.kind();
    bytes::lemma_be_bounds();
    bytes::lemma_be_of_value(input.subrange(6, 8));
    bytes::lemma_be_of_value(input.subrange(8, 16));
    bytes::lemma_be_of_value(input.subrange(16, 20));
    bytes::lemma_be_of_value(input.subrange(20, 24));
    let wire_kind = IntegrationMessageTypeV3::of_wire(frame::field(input, 6, 2))->Ok_0;
    lemma_payload_of_parse(wire_kind, input.skip(24));
    frame::lemma_frame_of_fields(input);
    if let IntegrationBodyView::Request { task_id, .. } = message.body {
        bytes::lemma_be(text::utf8(task_id).len(), 4);
        bytes::lemma_be(0, 4);
    }
}

} // verus!
