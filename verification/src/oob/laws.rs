//! Where the fields of the handshake stand on the wire, and who is taken for a peer.

use vstd::prelude::*;

use super::{
    frame_wire, hello_parse, hello_wire, role_only_error, signed_bits, CapabilityWire,
    HandshakeStep, MessageType, Role,
};
use crate::bytes;
use crate::jetty;
use crate::jetty::{DescriptorView, MAX_JETTY_DESCRIPTOR_LEN};
use crate::message::frame;
use crate::provider::FfiError;

verus! {

/// A handshake message has its magic, its version, its kind and its length at fixed places, and then
/// what it carries.
pub proof fn handshake_frames_are_laid_out(kind: MessageType, payload: Seq<u8>)
    requires
        payload.len() <= u32::MAX,
    ensures
        ({
            let wire = frame_wire(kind, payload);
            &&& wire.len() == 12 + payload.len()
            &&& frame::field(wire, 0, 4) == 0x5552_4d41
            &&& frame::field(wire, 4, 2) == 2
            &&& frame::field(wire, 6, 2) == match kind {
                MessageType::Hello => 1nat,
                MessageType::HelloAck => 2nat,
                MessageType::Ready => 3nat,
                MessageType::ReadyAck => 4nat,
            }
            &&& frame::field(wire, 8, 4) == payload.len()
            &&& wire.skip(12) == payload
        }),
{
    let wire = frame_wire(kind, payload);
    bytes::lemma_be_bounds();
    bytes::lemma_be(super::OOB_MAGIC as nat, 4);
    bytes::lemma_be(super::OOB_VERSION as nat, 2);
    bytes::lemma_be(kind.wire() as nat, 2);
    bytes::lemma_be(payload.len(), 4);
    assert(wire.subrange(0, 4) =~= bytes::be(super::OOB_MAGIC as nat, 4));
    assert(wire.subrange(4, 6) =~= bytes::be(super::OOB_VERSION as nat, 2));
    assert(wire.subrange(6, 8) =~= bytes::be(kind.wire() as nat, 2));
    assert(wire.subrange(8, 12) =~= bytes::be(payload.len(), 4));
    assert(wire.skip(12) =~= payload);
}

/// A capability has each of its numbers at its own place.
pub proof fn capabilities_are_laid_out(capability: CapabilityWire)
    ensures
        ({
            let wire = capability.wire();
            &&& wire.len() == 38
            &&& frame::field(wire, 0, 4) == signed_bits(capability.transport_type)
            &&& frame::field(wire, 4, 4) == capability.eid_index
            &&& frame::field(wire, 8, 4) == capability.max_jfc_depth
            &&& frame::field(wire, 12, 4) == capability.max_jfs_depth
            &&& frame::field(wire, 16, 4) == capability.max_jfr_depth
            &&& frame::field(wire, 20, 4) == capability.max_jfs_sge
            &&& frame::field(wire, 24, 4) == capability.max_jfr_sge
            &&& frame::field(wire, 28, 8) == capability.max_msg_size
            &&& frame::field(wire, 36, 2) == capability.transport_modes
        }),
{
    let wire = capability.wire();
    bytes::lemma_be_bounds();
    bytes::lemma_be(signed_bits(capability.transport_type), 4);
    bytes::lemma_be(capability.eid_index as nat, 4);
    bytes::lemma_be(capability.max_jfc_depth as nat, 4);
    bytes::lemma_be(capability.max_jfs_depth as nat, 4);
    bytes::lemma_be(capability.max_jfr_depth as nat, 4);
    bytes::lemma_be(capability.max_jfs_sge as nat, 4);
    bytes::lemma_be(capability.max_jfr_sge as nat, 4);
    bytes::lemma_be(capability.max_msg_size as nat, 8);
    bytes::lemma_be(capability.transport_modes as nat, 2);
    assert(wire.subrange(0, 4) =~= bytes::be(signed_bits(capability.transport_type), 4));
    assert(wire.subrange(4, 8) =~= bytes::be(capability.eid_index as nat, 4));
    assert(wire.subrange(8, 12) =~= bytes::be(capability.max_jfc_depth as nat, 4));
    assert(wire.subrange(12, 16) =~= bytes::be(capability.max_jfs_depth as nat, 4));
    assert(wire.subrange(16, 20) =~= bytes::be(capability.max_jfr_depth as nat, 4));
    assert(wire.subrange(20, 24) =~= bytes::be(capability.max_jfs_sge as nat, 4));
    assert(wire.subrange(24, 28) =~= bytes::be(capability.max_jfr_sge as nat, 4));
    assert(wire.subrange(28, 36) =~= bytes::be(capability.max_msg_size as nat, 8));
    assert(wire.subrange(36, 38) =~= bytes::be(capability.transport_modes as nat, 2));
}

/// A Jetty descriptor has each of its numbers at its own place, and then what only the provider reads.
pub proof fn descriptors_are_laid_out(descriptor: DescriptorView)
    ensures
        ({
            let wire = descriptor.wire();
            &&& wire.len() == 18 + descriptor.opaque_data.len()
            &&& frame::field(wire, 0, 2) == descriptor.version
            &&& frame::field(wire, 2, 4) == descriptor.transport_type
            &&& frame::field(wire, 6, 4) == descriptor.eid_index
            &&& frame::field(wire, 10, 4) == descriptor.jetty_id
            &&& frame::field(wire, 14, 4) == descriptor.opaque_len
            &&& wire.skip(18) == descriptor.opaque_data
        }),
{
    let wire = descriptor.wire();
    bytes::lemma_be_bounds();
    bytes::lemma_be(descriptor.version as nat, 2);
    bytes::lemma_be(descriptor.transport_type as nat, 4);
    bytes::lemma_be(descriptor.eid_index as nat, 4);
    bytes::lemma_be(descriptor.jetty_id as nat, 4);
    bytes::lemma_be(descriptor.opaque_len as nat, 4);
    assert(wire.subrange(0, 2) =~= bytes::be(descriptor.version as nat, 2));
    assert(wire.subrange(2, 6) =~= bytes::be(descriptor.transport_type as nat, 4));
    assert(wire.subrange(6, 10) =~= bytes::be(descriptor.eid_index as nat, 4));
    assert(wire.subrange(10, 14) =~= bytes::be(descriptor.jetty_id as nat, 4));
    assert(wire.subrange(14, 18) =~= bytes::be(descriptor.opaque_len as nat, 4));
    assert(wire.skip(18) =~= descriptor.opaque_data);
}

/// A Jetty descriptor is taken exactly where it is of the first version and says truly how long its
/// provider's part is: one to 65536 bytes.
pub proof fn descriptors_are_taken_exactly_when(descriptor: DescriptorView)
    ensures
        descriptor.error() is None <==> {
            &&& descriptor.version == 1
            &&& descriptor.opaque_len == descriptor.opaque_data.len()
            &&& 1 <= descriptor.opaque_data.len() <= 65536
        },
        MAX_JETTY_DESCRIPTOR_LEN == 65536,
{
}

/// A peer is taken exactly where its announcement starts with its role, its transport is ours, and its
/// descriptor is sound and names the address that its capability does.
pub proof fn peers_are_taken_exactly_when(payload: Seq<u8>, peer: Role, local: CapabilityWire)
    ensures
        hello_parse(payload, peer, local) is Ok <==> {
            &&& payload.len() > 39
            &&& payload[0] == match peer {
                Role::Parent => 1u8,
                Role::Child => 2u8,
            }
            &&& CapabilityWire::parse(payload.subrange(1, 39)) matches Ok(capability)
            &&& capability.transport_type == local.transport_type
            &&& DescriptorView::parse(payload.skip(39)) matches Ok(descriptor)
            &&& descriptor.eid_index == capability.eid_index
        },
        hello_parse(payload, peer, local) matches Ok((capability, descriptor)) ==> {
            &&& CapabilityWire::parse(payload.subrange(1, 39)) == Ok::<
                CapabilityWire,
                crate::error::ErrorView,
            >(capability)
            &&& DescriptorView::parse(payload.skip(39)) == Ok::<
                DescriptorView,
                crate::error::ErrorView,
            >(descriptor)
        },
{
    if payload.len() > 39 {
        assert(payload.take(39).skip(1) =~= payload.subrange(1, 39));
    }
}

/// An announcement is the role's byte, the capability and the descriptor, one after the other.
pub proof fn announcements_are_laid_out(
    role: Role,
    capability: CapabilityWire,
    descriptor: DescriptorView,
)
    ensures
        ({
            let wire = hello_wire(role, capability, descriptor);
            &&& wire[0] == match role {
                Role::Parent => 1u8,
                Role::Child => 2u8,
            }
            &&& wire.subrange(1, 39) == capability.wire()
            &&& wire.skip(39) == descriptor.wire()
        }),
{
    capabilities_are_laid_out(capability);
    let wire = hello_wire(role, capability, descriptor);
    assert(wire.subrange(1, 39) =~= capability.wire());
    assert(wire.skip(39) =~= descriptor.wire());
}

/// A ready message is taken exactly where it is the peer's role and nothing else.
pub proof fn roles_are_taken_exactly_when(input: Seq<u8>, expected: Role)
    ensures
        role_only_error(input, expected) is None <==> input.len() == 1 && input[0] == match expected {
            Role::Parent => 1u8,
            Role::Child => 2u8,
        },
{
}

/// The two sides of the handshake answer each other: what one sends the other waits for, in the same
/// order; each attaches the peer once, before it says that it is ready, and is ready only at the end.
pub proof fn handshakes_answer_each_other()
    ensures
        ({
            let parent = Role::Parent.steps();
            let child = Role::Child.steps();
            &&& parent.len() == 6 && child.len() == 6
            &&& child[0] == HandshakeStep::SendHello && parent[0] == HandshakeStep::AwaitHello
            &&& parent[2] == HandshakeStep::SendHelloAck && child[1] == HandshakeStep::AwaitHelloAck
            &&& child[3] == HandshakeStep::SendReady && parent[3] == HandshakeStep::AwaitReady
            &&& parent[4] == HandshakeStep::SendReadyAck && child[4] == HandshakeStep::AwaitReadyAck
            &&& parent[1] == HandshakeStep::Attach && child[2] == HandshakeStep::Attach
            &&& parent.last() == HandshakeStep::MarkReady
            &&& child.last() == HandshakeStep::MarkReady
        }),
{
}

/// The bits of a signed number tell it, and a number that is not negative has its own.
pub proof fn signed_numbers_keep_their_bits(value: i32, other: i32)
    ensures
        super::of_signed_bits(signed_bits(value)) == value,
        signed_bits(value) < 0x1_0000_0000,
        value >= 0 ==> signed_bits(value) == value,
        signed_bits(value) == signed_bits(other) ==> value == other,
{
}

/// A failed native operation is told of after those before it, with its operation; one that succeeded is
/// not.
pub proof fn native_failures_are_told_in_order(
    failures: Seq<Seq<char>>,
    operation: Seq<char>,
    failure: FfiError,
)
    ensures
        jetty::noted(failures, operation, Ok(())) == failures,
        jetty::noted(failures, operation, Err(failure)) == failures + seq![
            failure.mapped(operation).text(),
        ],
        failure matches FfiError::Status(status) ==> failure.mapped(operation)
            == (crate::error::ErrorView::Native { operation, status }),
        failure is NullHandle ==> failure.mapped(operation) == (crate::error::ErrorView::NullHandle {
            operation,
        }),
        failure matches FfiError::Contract(detail) ==> failure.mapped(operation) == (
        crate::error::ErrorView::FfiContract { operation, detail: detail@ }),
{
    assert(failures.push(failure.mapped(operation).text()) =~= failures + seq![
        failure.mapped(operation).text(),
    ]);
}

} // verus!
