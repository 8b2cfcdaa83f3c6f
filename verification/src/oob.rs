//! The out-of-band handshake: framed messages that exchange roles, capabilities
//! and Jetty descriptors before the data plane starts.

use vstd::prelude::*;

use crate::bytes;
use crate::bytes::{copy_range, push_bytes, push_u16, push_u32, push_u64, read_u16, read_u32, read_u64};
use crate::error::{protocol, Error, ErrorView, Result};
use crate::jetty;
use crate::jetty::{DescriptorView, JettyDescriptor};
use crate::message::frame;
use crate::runtime::CapabilityWire;
use crate::text;
use crate::text::{push_signed, with_hex, with_number, with_numbers};

pub mod laws;

verus! {

pub const OOB_MAGIC: u32 = 0x5552_4d41;

pub const OOB_VERSION: u16 = 2;

pub const MAX_OOB_PAYLOAD_LEN: usize = 131072;

/// The length of a frame's header.
pub const HEADER_LEN: usize = 12;

/// The kind of a handshake message.
#[derive(Clone, Copy, Debug, Eq, PartialEq, Structural)]
pub enum MessageType {
    Hello,
    HelloAck,
    Ready,
    ReadyAck,
}

impl MessageType {
    /// The number that stands for the kind on the wire.
    pub open spec fn wire(self) -> u16 {
        match self {
            MessageType::Hello => 1,
            MessageType::HelloAck => 2,
            MessageType::Ready => 3,
            MessageType::ReadyAck => 4,
        }
    }

    /// The kind's name.
    pub open spec fn name(self) -> Seq<char> {
        match self {
            MessageType::Hello => "Hello"@,
            MessageType::HelloAck => "HelloAck"@,
            MessageType::Ready => "Ready"@,
            MessageType::ReadyAck => "ReadyAck"@,
        }
    }

    /// The number that stands for the kind on the wire.
    pub fn wire_value(self) -> (value: u16)
        ensures
            value == self.wire(),
    {
        match self {
            MessageType::Hello => 1,
            MessageType::HelloAck => 2,
            MessageType::Ready => 3,
            MessageType::ReadyAck => 4,
        }
    }

    /// The kind's name.
    pub fn label(self) -> (label: &'static str)
        ensures
            label@ == self.name(),
    {
        match self {
            MessageType::Hello => "Hello",
            MessageType::HelloAck => "HelloAck",
            MessageType::Ready => "Ready",
            MessageType::ReadyAck => "ReadyAck",
        }
    }

    /// The kind that a number on the wire stands for.
    pub fn try_from(value: u16) -> (kind: Result<Self>)
        ensures
            match kind {
                Ok(kind) => kind.wire() == value,
                Err(error) => {
                    &&& !(1 <= value <= 4)
                    &&& error@ == ErrorView::Protocol(
                        "unknown OOB message type "@ + text::decimal(value as nat) + ""@,
                    )
                },
            },
    {
        match value {
            1 => Ok(MessageType::Hello),
            2 => Ok(MessageType::HelloAck),
            3 => Ok(MessageType::Ready),
            4 => Ok(MessageType::ReadyAck),
            _ => Err(Error::Protocol(with_number("unknown OOB message type ", value as u64, ""))),
        }
    }
}

/// Which side of the handshake speaks.
#[derive(Clone, Copy, Debug, Eq, PartialEq, Structural)]
pub enum Role {
    Parent,
    Child,
}

impl Role {
    /// The byte that stands for the role on the wire.
    pub open spec fn wire(self) -> u8 {
        match self {
            Role::Parent => 1,
            Role::Child => 2,
        }
    }

    /// The role's name.
    pub open spec fn name(self) -> Seq<char> {
        match self {
            Role::Parent => "Parent"@,
            Role::Child => "Child"@,
        }
    }

    /// The role that a byte stands for, or why it stands for none.
    pub open spec fn of_wire(value: u8) -> core::result::Result<Self, ErrorView> {
        if value == 1 {
            Ok(Role::Parent)
        } else if value == 2 {
            Ok(Role::Child)
        } else {
            Err(ErrorView::Protocol("invalid OOB role "@ + text::decimal(value as nat) + ""@))
        }
    }

    /// The byte that stands for the role on the wire.
    pub fn wire_value(self) -> (value: u8)
        ensures
            value == self.wire(),
    {
        match self {
            Role::Parent => 1,
            Role::Child => 2,
        }
    }

    /// The role's name.
    pub fn label(self) -> (label: &'static str)
        ensures
            label@ == self.name(),
    {
        match self {
            Role::Parent => "Parent",
            Role::Child => "Child",
        }
    }

    /// The role that a byte stands for.
    pub fn try_from(value: u8) -> (role: Result<Self>)
        ensures
            match role {
                Ok(role) => Self::of_wire(value) == Ok::<Role, ErrorView>(role),
                Err(error) => Self::of_wire(value) == Err::<Role, ErrorView>(error@),
            },
    {
        match value {
            1 => Ok(Role::Parent),
            2 => Ok(Role::Child),
            _ => Err(Error::Protocol(with_number("invalid OOB role ", value as u64, ""))),
        }
    }
}

/// The 32 bits of a signed number, as an unsigned one.
pub open spec fn signed_bits(value: i32) -> nat {
    if value >= 0 {
        value as nat
    } else {
        (value + 0x1_0000_0000) as nat
    }
}

/// The signed number with these 32 bits.
pub open spec fn of_signed_bits(bits: nat) -> i32 {
    if bits < 0x8000_0000 {
        bits as i32
    } else {
        (bits - 0x1_0000_0000) as i32
    }
}

impl CapabilityWire {
    pub const LEN: usize = 38;

    /// The capability's bytes.
    pub open spec fn wire(self) -> Seq<u8> {
        bytes::be(signed_bits(self.transport_type), 4) + bytes::be(self.eid_index as nat, 4)
            + bytes::be(self.max_jfc_depth as nat, 4) + bytes::be(self.max_jfs_depth as nat, 4)
            + bytes::be(self.max_jfr_depth as nat, 4) + bytes::be(self.max_jfs_sge as nat, 4)
            + bytes::be(self.max_jfr_sge as nat, 4) + bytes::be(self.max_msg_size as nat, 8)
            + bytes::be(self.transport_modes as nat, 2)
    }

    /// The capability that bytes spell, or why they spell none.
    pub open spec fn parse(input: Seq<u8>) -> core::result::Result<Self, ErrorView> {
        if input.len() != 38 {
            Err(
                ErrorView::Protocol(
                    "capability payload length "@ + text::decimal(input.len()) + " is not 38"@,
                ),
            )
        } else {
            Ok(
                CapabilityWire {
                    transport_type: of_signed_bits(frame::field(input, 0, 4)),
                    eid_index: frame::field(input, 4, 4) as u32,
                    max_jfc_depth: frame::field(input, 8, 4) as u32,
                    max_jfs_depth: frame::field(input, 12, 4) as u32,
                    max_jfr_depth: frame::field(input, 16, 4) as u32,
                    max_jfs_sge: frame::field(input, 20, 4) as u32,
                    max_jfr_sge: frame::field(input, 24, 4) as u32,
                    max_msg_size: frame::field(input, 28, 8) as u64,
                    transport_modes: frame::field(input, 36, 2) as u16,
                },
            )
        }
    }

    /// Appends the capability's bytes.
    pub fn encode(&self, out: &mut Vec<u8>)
        ensures
            final(out)@ == old(out)@ + self.wire(),
    {
        let ghost before = out@;
        let bits: u32 = if self.transport_type >= 0 {
            self.transport_type as u32
        } else {
            (self.transport_type as i64 + 0x1_0000_0000) as u32
        };
        push_u32(out, bits);
        push_u32(out, self.eid_index);
        push_u32(out, self.max_jfc_depth);
        push_u32(out, self.max_jfs_depth);
        push_u32(out, self.max_jfr_depth);
        push_u32(out, self.max_jfs_sge);
        push_u32(out, self.max_jfr_sge);
        push_u64(out, self.max_msg_size);
        push_u16(out, self.transport_modes);
        assert(out@ =~= before + self.wire());
    }

    /// The capability that bytes spell.
    pub fn decode(input: &[u8]) -> (decoded: Result<Self>)
        ensures
            match decoded {
                Ok(capability) => Self::parse(input@) == Ok::<Self, ErrorView>(capability),
                Err(error) => Self::parse(input@) == Err::<Self, ErrorView>(error@),
            },
    {
        if input.len() != Self::LEN {
            return Err(
                Error::Protocol(
                    with_number("capability payload length ", input.len() as u64, " is not 38"),
                ),
            );
        }
        let bits: u32 = read_u32(input, 0);
        let transport_type: i32 = if bits < 0x8000_0000 {
            bits as i32
        } else {
            (bits as i64 - 0x1_0000_0000) as i32
        };
        Ok(
            CapabilityWire {
                transport_type,
                eid_index: read_u32(input, 4),
                max_jfc_depth: read_u32(input, 8),
                max_jfs_depth: read_u32(input, 12),
                max_jfr_depth: read_u32(input, 16),
                max_jfs_sge: read_u32(input, 20),
                max_jfr_sge: read_u32(input, 24),
                max_msg_size: read_u64(input, 28),
                transport_modes: read_u16(input, 36),
            },
        )
    }
}

/// Reading the bytes of a capability gives that capability.
pub proof fn capability_decode_undoes_encode(capability: CapabilityWire)
    ensures
        capability.wire().len() == 38,
        CapabilityWire::parse(capability.wire()) == Ok::<CapabilityWire, ErrorView>(capability),
{
    let input = capability.wire();
    bytes::lemma_be_bounds();
    bytes::lemma_be(signed_bits(capability.transport_type), 4);
    bytes::lemma_be(capability.eid_index as nat, 4);
    bytes::lemma_be(capability.max_jfc_depth as nat, 4);
    bytes::lemma_be(capability.max_jfs_depth as nat, 4);
    bytes::lemma_be(capability.max_jfr_depth as nat, 4);
    bytes::lemma_be(capability.max_jfs_sge as nat, 4);
    bytes::lemma_be(capability.max_jfr_sge as nat, 4);
    bytes::lemma_be(capability.max_msg_size as nat, 8);
    bytes::lemma_be(capability.transport_modes as nat, 2);
    assert(input.subrange(0, 4) =~= bytes::be(signed_bits(capability.transport_type), 4));
    assert(input.subrange(4, 8) =~= bytes::be(capability.eid_index as nat, 4));
    assert(input.subrange(8, 12) =~= bytes::be(capability.max_jfc_depth as nat, 4));
    assert(input.subrange(12, 16) =~= bytes::be(capability.max_jfs_depth as nat, 4));
    assert(input.subrange(16, 20) =~= bytes::be(capability.max_jfr_depth as nat, 4));
    assert(input.subrange(20, 24) =~= bytes::be(capability.max_jfs_sge as nat, 4));
    assert(input.subrange(24, 28) =~= bytes::be(capability.max_jfr_sge as nat, 4));
    assert(input.subrange(28, 36) =~= bytes::be(capability.max_msg_size as nat, 8));
    assert(input.subrange(36, 38) =~= bytes::be(capability.transport_modes as nat, 2));
}

/// One handshake message.
#[derive(Debug, Eq, PartialEq)]
pub struct Frame {
    pub message_type: MessageType,
    pub payload: Vec<u8>,
}

/// The bytes of a handshake message.
pub open spec fn frame_wire(kind: MessageType, payload: Seq<u8>) -> Seq<u8> {
    bytes::be(OOB_MAGIC as nat, 4) + bytes::be(OOB_VERSION as nat, 2) + bytes::be(
        kind.wire() as nat,
        2,
    ) + bytes::be(payload.len(), 4) + payload
}

/// What a header announces: the kind and the payload's length, or why it is refused.
pub open spec fn header_parse(header: Seq<u8>) -> core::result::Result<
    (MessageType, nat),
    ErrorView,
> {
    let magic = frame::field(header, 0, 4);
    let version = frame::field(header, 4, 2);
    let kind = frame::field(header, 6, 2);
    let length = frame::field(header, 8, 4);
    if magic != OOB_MAGIC {
        Err(ErrorView::Protocol("invalid OOB magic 0x"@ + text::hex(magic, 8) + ""@))
    } else if version != OOB_VERSION {
        Err(ErrorView::Protocol("unsupported OOB version "@ + text::decimal(version) + ""@))
    } else if !(1 <= kind <= 4) {
        Err(ErrorView::Protocol("unknown OOB message type "@ + text::decimal(kind) + ""@))
    } else if length > MAX_OOB_PAYLOAD_LEN {
        Err(
            ErrorView::Protocol(
                "OOB payload length "@ + text::decimal(length) + " exceeds "@ + text::decimal(
                    MAX_OOB_PAYLOAD_LEN as nat,
                ) + ""@,
            ),
        )
    } else {
        Ok(
            (
                if kind == 1 {
                    MessageType::Hello
                } else if kind == 2 {
                    MessageType::HelloAck
                } else if kind == 3 {
                    MessageType::Ready
                } else {
                    MessageType::ReadyAck
                },
                length,
            ),
        )
    }
}

/// The error of a read that found the end of its input.
pub open spec fn short_read(operation: Seq<char>) -> ErrorView {
    ErrorView::Io { operation, message: "failed to fill whole buffer"@ }
}

/// The message at the start of bytes, or why there is none.
pub open spec fn frame_parse(input: Seq<u8>) -> core::result::Result<
    (MessageType, Seq<u8>),
    ErrorView,
> {
    if input.len() < 12 {
        Err(short_read("read OOB frame header"@))
    } else {
        match header_parse(input.take(12)) {
            Err(error) => Err(error),
            Ok((kind, length)) => if input.len() - 12 < length {
                Err(short_read("read OOB frame payload"@))
            } else {
                Ok((kind, input.subrange(12, 12 + length as int)))
            },
        }
    }
}

impl Frame {
    /// The bytes of the message.
    pub fn encode(&self) -> (encoded: Result<Vec<u8>>)
        ensures
            match encoded {
                Ok(out) => {
                    &&& self.payload@.len() <= MAX_OOB_PAYLOAD_LEN
                    &&& out@ == frame_wire(self.message_type, self.payload@)
                },
                Err(error) => {
                    &&& self.payload@.len() > MAX_OOB_PAYLOAD_LEN
                    &&& error@ == ErrorView::Protocol("outbound OOB payload is too large"@)
                },
            },
    {
        if self.payload.len() > MAX_OOB_PAYLOAD_LEN {
            return Err(protocol("outbound OOB payload is too large"));
        }
        let mut out: Vec<u8> = Vec::new();
        push_u32(&mut out, OOB_MAGIC);
        push_u16(&mut out, OOB_VERSION);
        push_u16(&mut out, self.message_type.wire_value());
        push_u32(&mut out, self.payload.len() as u32);
        push_bytes(&mut out, &self.payload);
        assert(out@ =~= frame_wire(self.message_type, self.payload@));
        Ok(out)
    }

    /// The kind and the payload's length that a header announces. The length is judged before
    /// anything is read or reserved for it.
    pub fn read_header(header: &[u8]) -> (read: Result<(MessageType, usize)>)
        requires
            header@.len() == HEADER_LEN,
        ensures
            match read {
                Ok((kind, length)) => header_parse(header@) == Ok::<(MessageType, nat), ErrorView>(
                    (kind, length as nat),
                ),
                Err(error) => header_parse(header@) == Err::<(MessageType, nat), ErrorView>(error@),
            },
    {
        let magic: u32 = read_u32(header, 0);
        if magic != OOB_MAGIC {
            return Err(Error::Protocol(with_hex("invalid OOB magic 0x", magic as u64, 8, "")));
        }
        let version: u16 = read_u16(header, 4);
        if version != OOB_VERSION {
            return Err(
                Error::Protocol(with_number("unsupported OOB version ", version as u64, "")),
            );
        }
        let message_type = match MessageType::try_from(read_u16(header, 6)) {
            Ok(message_type) => message_type,
            Err(error) => {
                return Err(error);
            },
        };
        let length: usize = read_u32(header, 8) as usize;
        if length > MAX_OOB_PAYLOAD_LEN {
            return Err(
                Error::Protocol(
                    with_numbers(
                        "OOB payload length ",
                        length as u64,
                        " exceeds ",
                        MAX_OOB_PAYLOAD_LEN as u64,
                        "",
                    ),
                ),
            );
        }
        Ok((message_type, length))
    }

    /// The message at the start of `input`.
    pub fn decode(input: &[u8]) -> (decoded: Result<Self>)
        ensures
            match decoded {
                Ok(frame) => frame_parse(input@) == Ok::<(MessageType, Seq<u8>), ErrorView>(
                    (frame.message_type, frame.payload@),
                ),
                Err(error) => frame_parse(input@) == Err::<(MessageType, Seq<u8>), ErrorView>(
                    error@,
                ),
            },
    {
        if input.len() < HEADER_LEN {
            return Err(
                Error::Io {
                    operation: "read OOB frame header",
                    message: "failed to fill whole buffer".to_owned(),
                },
            );
        }
        let header = copy_range(input, 0, HEADER_LEN);
        assert(header@ =~= input@.take(12));
        let (message_type, length): (MessageType, usize) = match Self::read_header(&header) {
            Ok(read) => read,
            Err(error) => {
                return Err(error);
            },
        };
        if input.len() - HEADER_LEN < length {
            return Err(
                Error::Io {
                    operation: "read OOB frame payload",
                    message: "failed to fill whole buffer".to_owned(),
                },
            );
        }
        Ok(Frame { message_type, payload: copy_range(input, HEADER_LEN, HEADER_LEN + length) })
    }

    /// The message, where it is of the expected kind.
    pub fn expect_frame(self, expected: MessageType) -> (checked: Result<Self>)
        ensures
            match checked {
                Ok(frame) => self.message_type == expected && frame == self,
                Err(error) => {
                    &&& self.message_type != expected
                    &&& error@ == ErrorView::Protocol(
                        "received "@ + self.message_type.name() + ", expected "@ + expected.name(),
                    )
                },
            },
    {
        if self.message_type != expected {
            let mut detail = "received ".to_owned();
            detail.append(self.message_type.label());
            detail.append(", expected ");
            detail.append(expected.label());
            return Err(Error::Protocol(detail));
        }
        Ok(self)
    }
}

/// Reading the bytes of a message gives that message, whatever follows them.
pub proof fn oob_decode_undoes_encode(kind: MessageType, payload: Seq<u8>, rest: Seq<u8>)
    requires
        payload.len() <= MAX_OOB_PAYLOAD_LEN,
    ensures
        frame_parse(frame_wire(kind, payload) + rest) == Ok::<(MessageType, Seq<u8>), ErrorView>(
            (kind, payload),
        ),
{
    let input = frame_wire(kind, payload) + rest;
    let header = input.take(12);
    bytes::lemma_be_bounds();
    bytes::lemma_be(OOB_MAGIC as nat, 4);
    bytes::lemma_be(OOB_VERSION as nat, 2);
    bytes::lemma_be(kind.wire() as nat, 2);
    bytes::lemma_be(payload.len(), 4);
    assert(header.subrange(0, 4) =~= bytes::be(OOB_MAGIC as nat, 4));
    assert(header.subrange(4, 6) =~= bytes::be(OOB_VERSION as nat, 2));
    assert(header.subrange(6, 8) =~= bytes::be(kind.wire() as nat, 2));
    assert(header.subrange(8, 12) =~= bytes::be(payload.len(), 4));
    assert(input.subrange(12, 12 + payload.len() as int) =~= payload);
}

/// The capability that a role announces, or why its payload is refused.
pub open spec fn role_capability_parse(input: Seq<u8>, expected: Role) -> core::result::Result<
    CapabilityWire,
    ErrorView,
> {
    if input.len() != 39 {
        Err(ErrorView::Protocol("invalid HELLO capability length"@))
    } else {
        match Role::of_wire(input[0]) {
            Err(error) => Err(error),
            Ok(role) => if role != expected {
                Err(
                    ErrorView::Protocol(
                        "peer role "@ + role.name() + ", expected "@ + expected.name(),
                    ),
                )
            } else {
                CapabilityWire::parse(input.skip(1))
            },
        }
    }
}

/// The bytes of a role and its capability.
pub fn encode_role_capability(role: Role, capability: &CapabilityWire) -> (payload: Vec<u8>)
    ensures
        payload@ == seq![role.wire()] + capability.wire(),
{
    let mut payload: Vec<u8> = Vec::new();
    payload.push(role.wire_value());
    assert(payload@ =~= seq![role.wire()]);
    capability.encode(&mut payload);
    payload
}

/// The capability that a role announces.
pub fn decode_role_capability(input: &[u8], expected: Role) -> (decoded: Result<CapabilityWire>)
    ensures
        match decoded {
            Ok(capability) => role_capability_parse(input@, expected) == Ok::<
                CapabilityWire,
                ErrorView,
            >(capability),
            Err(error) => role_capability_parse(input@, expected) == Err::<
                CapabilityWire,
                ErrorView,
            >(error@),
        },
{
    if input.len() != 1 + CapabilityWire::LEN {
        return Err(protocol("invalid HELLO capability length"));
    }
    let role = match Role::try_from(input[0]) {
        Ok(role) => role,
        Err(error) => {
            return Err(error);
        },
    };
    if role != expected {
        let mut detail = "peer role ".to_owned();
        detail.append(role.label());
        detail.append(", expected ");
        detail.append(expected.label());
        return Err(Error::Protocol(detail));
    }
    let wire = copy_range(input, 1, input.len());
    assert(wire@ =~= input@.skip(1));
    CapabilityWire::decode(&wire)
}

/// Why a payload that should hold only a role is refused, if it is refused.
pub open spec fn role_only_error(input: Seq<u8>, expected: Role) -> Option<ErrorView> {
    let invalid = ErrorView::Protocol("invalid role payload, expected "@ + expected.name());
    if input.len() != 1 {
        Some(invalid)
    } else {
        match Role::of_wire(input[0]) {
            Err(error) => Some(error),
            Ok(role) => if role != expected {
                Some(invalid)
            } else {
                None
            },
        }
    }
}

/// Checks a payload that should hold only a role.
pub fn expect_role_only(input: &[u8], expected: Role) -> (checked: Result<()>)
    ensures
        match checked {
            Ok(()) => role_only_error(input@, expected) is None,
            Err(error) => role_only_error(input@, expected) == Some(error@),
        },
{
    if input.len() == 1 {
        match Role::try_from(input[0]) {
            Ok(role) => {
                if role == expected {
                    return Ok(());
                }
            },
            Err(error) => {
                return Err(error);
            },
        }
    }
    let mut detail = "invalid role payload, expected ".to_owned();
    detail.append(expected.label());
    Err(Error::Protocol(detail))
}

/// Why a peer's capability is refused, if it is refused.
pub open spec fn peer_error(local: CapabilityWire, peer: CapabilityWire) -> Option<ErrorView> {
    if peer.transport_type != local.transport_type {
        Some(
            ErrorView::Protocol(
                "peer transport type "@ + text::signed_decimal(peer.transport_type as int)
                    + " does not match local "@ + text::signed_decimal(local.transport_type as int),
            ),
        )
    } else {
        None
    }
}

/// Whether the two sides can talk to each other.
pub fn validate_peer_capability(local: &CapabilityWire, peer: &CapabilityWire) -> (valid: Result<()>)
    ensures
        match valid {
            Ok(()) => peer_error(*local, *peer) is None,
            Err(error) => peer_error(*local, *peer) == Some(error@),
        },
{
    if peer.transport_type != local.transport_type {
        let mut detail = "peer transport type ".to_owned();
        push_signed(&mut detail, peer.transport_type);
        detail.append(" does not match local ");
        push_signed(&mut detail, local.transport_type);
        return Err(Error::Protocol(detail));
    }
    Ok(())
}

/// The payload of a HELLO or a HELLO_ACK: a role, its capability, its Jetty descriptor.
pub open spec fn hello_wire(role: Role, capability: CapabilityWire, descriptor: DescriptorView) -> Seq<
    u8,
> {
    seq![role.wire()] + capability.wire() + descriptor.wire()
}

/// What the `peer` side announces in its HELLO or HELLO_ACK, or why it is refused.
pub open spec fn hello_parse(payload: Seq<u8>, peer: Role, local: CapabilityWire) -> core::result::Result<
    (CapabilityWire, DescriptorView),
    ErrorView,
> {
    if payload.len() <= 39 {
        Err(
            ErrorView::Protocol(
                match peer {
                    Role::Child => "HELLO lacks a Child Jetty descriptor"@,
                    Role::Parent => "HELLO_ACK lacks a Jetty descriptor"@,
                },
            ),
        )
    } else {
        match role_capability_parse(payload.take(39), peer) {
            Err(error) => Err(error),
            Ok(capability) => match peer_error(local, capability) {
                Some(error) => Err(error),
                None => match DescriptorView::parse(payload.skip(39)) {
                    Err(error) => Err(error),
                    Ok(descriptor) => if descriptor.eid_index != capability.eid_index {
                        Err(
                            ErrorView::Protocol(
                                match peer {
                                    Role::Child => {
                                        "Child descriptor EID index disagrees with capability"@
                                    },
                                    Role::Parent => {
                                        "descriptor EID index disagrees with parent capability"@
                                    },
                                },
                            ),
                        )
                    } else {
                        Ok((capability, descriptor))
                    },
                },
            },
        }
    }
}

/// The payload of a HELLO or a HELLO_ACK.
pub fn encode_hello(role: Role, capability: &CapabilityWire, descriptor: &JettyDescriptor) -> (payload:
    Result<Vec<u8>>)
    ensures
        match payload {
            Ok(payload) => {
                &&& descriptor@.error() is None
                &&& payload@ == hello_wire(role, *capability, descriptor@)
            },
            Err(error) => descriptor@.error() == Some(error@),
        },
{
    let serialized = match descriptor.serialize() {
        Ok(serialized) => serialized,
        Err(error) => {
            return Err(error);
        },
    };
    let mut payload = encode_role_capability(role, capability);
    push_bytes(&mut payload, &serialized);
    Ok(payload)
}

/// What the `peer` side announces in its HELLO or HELLO_ACK.
pub fn decode_hello(payload: &[u8], peer: Role, local: &CapabilityWire) -> (decoded: Result<
    (CapabilityWire, JettyDescriptor),
>)
    ensures
        match decoded {
            Ok((capability, descriptor)) => hello_parse(payload@, peer, *local) == Ok::<
                (CapabilityWire, DescriptorView),
                ErrorView,
            >((capability, descriptor@)),
            Err(error) => hello_parse(payload@, peer, *local) == Err::<
                (CapabilityWire, DescriptorView),
                ErrorView,
            >(error@),
        },
{
    if payload.len() <= 1 + CapabilityWire::LEN {
        return Err(
            match peer {
                Role::Child => protocol("HELLO lacks a Child Jetty descriptor"),
                Role::Parent => protocol("HELLO_ACK lacks a Jetty descriptor"),
            },
        );
    }
    let announced = copy_range(payload, 0, 39);
    assert(announced@ =~= payload@.take(39));
    let capability = match decode_role_capability(&announced, peer) {
        Ok(capability) => capability,
        Err(error) => {
            return Err(error);
        },
    };
    match validate_peer_capability(local, &capability) {
        Ok(()) => {},
        Err(error) => {
            return Err(error);
        },
    }
    let rest = copy_range(payload, 39, payload.len());
    assert(rest@ =~= payload@.skip(39));
    let descriptor = match JettyDescriptor::deserialize(&rest) {
        Ok(descriptor) => descriptor,
        Err(error) => {
            return Err(error);
        },
    };
    if descriptor.eid_index != capability.eid_index {
        return Err(
            match peer {
                Role::Child => protocol("Child descriptor EID index disagrees with capability"),
                Role::Parent => protocol("descriptor EID index disagrees with parent capability"),
            },
        );
    }
    Ok((capability, descriptor))
}

/// Each side reads from a HELLO exactly what the other side announced, where the transports match
/// and the descriptor is of the announced endpoint.
pub proof fn hello_decode_undoes_encode(
    role: Role,
    capability: CapabilityWire,
    descriptor: DescriptorView,
    local: CapabilityWire,
)
    requires
        descriptor.error() is None,
        descriptor.eid_index == capability.eid_index,
        capability.transport_type == local.transport_type,
    ensures
        hello_parse(hello_wire(role, capability, descriptor), role, local) == Ok::<
            (CapabilityWire, DescriptorView),
            ErrorView,
        >((capability, descriptor)),
{
    let payload = hello_wire(role, capability, descriptor);
    capability_decode_undoes_encode(capability);
    jetty::descriptor_deserialize_undoes_serialize(descriptor);
    bytes::lemma_be(descriptor.version as nat, 2);
    assert(descriptor.wire().len() > 0);
    assert(payload.take(39) =~= seq![role.wire()] + capability.wire());
    assert(payload.take(39).skip(1) =~= capability.wire());
    assert(payload.skip(39) =~= descriptor.wire());
}

/// What the handshake asks for next.
#[derive(Clone, Copy, Debug, Eq, PartialEq, Structural)]
pub enum HandshakeStep {
    SendHello,
    AwaitHello,
    /// Import the peer's descriptor, bind, post a receive.
    Attach,
    SendHelloAck,
    AwaitHelloAck,
    SendReady,
    AwaitReady,
    SendReadyAck,
    AwaitReadyAck,
    MarkReady,
}

impl Role {
    /// The steps of the role's side of the handshake, in order.
    pub open spec fn steps(self) -> Seq<HandshakeStep> {
        match self {
            Role::Parent => seq![
                HandshakeStep::AwaitHello,
                HandshakeStep::Attach,
                HandshakeStep::SendHelloAck,
                HandshakeStep::AwaitReady,
                HandshakeStep::SendReadyAck,
                HandshakeStep::MarkReady,
            ],
            Role::Child => seq![
                HandshakeStep::SendHello,
                HandshakeStep::AwaitHelloAck,
                HandshakeStep::Attach,
                HandshakeStep::SendReady,
                HandshakeStep::AwaitReadyAck,
                HandshakeStep::MarkReady,
            ],
        }
    }

    /// The step at `index` of the role's side of the handshake, where there is one.
    pub fn step(self, index: usize) -> (step: Option<HandshakeStep>)
        ensures
            step == if index < self.steps().len() {
                Some(self.steps()[index as int])
            } else {
                None
            },
    {
        match self {
            Role::Parent => match index {
                0 => Some(HandshakeStep::AwaitHello),
                1 => Some(HandshakeStep::Attach),
                2 => Some(HandshakeStep::SendHelloAck),
                3 => Some(HandshakeStep::AwaitReady),
                4 => Some(HandshakeStep::SendReadyAck),
                5 => Some(HandshakeStep::MarkReady),
                _ => None,
            },
            Role::Child => match index {
                0 => Some(HandshakeStep::SendHello),
                1 => Some(HandshakeStep::AwaitHelloAck),
                2 => Some(HandshakeStep::Attach),
                3 => Some(HandshakeStep::SendReady),
                4 => Some(HandshakeStep::AwaitReadyAck),
                5 => Some(HandshakeStep::MarkReady),
                _ => None,
            },
        }
    }
}

/// What follows the handshake on the socket: nothing, until the peer closes it. `read` is how many
/// bytes one read gave.
pub fn wait_for_peer_close(read: usize) -> (closed: Result<()>)
    ensures
        match closed {
            Ok(()) => read == 0,
            Err(error) => {
                &&& read > 0
                &&& error@ == ErrorView::Protocol("unexpected data received after READY_ACK"@)
            },
        },
{
    if read == 0 {
        Ok(())
    } else {
        Err(protocol("unexpected data received after READY_ACK"))
    }
}

} // verus!
