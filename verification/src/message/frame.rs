//! The header that both data-plane formats share.

use vstd::prelude::*;

use crate::bytes;
use crate::bytes::{push_bytes, push_u16, push_u32, push_u64};

verus! {

/// A data-plane frame: magic, version, message type, request, sequence, payload length, payload.
pub open spec fn frame(
    version: nat,
    kind: nat,
    request_id: nat,
    sequence: nat,
    payload: Seq<u8>,
) -> Seq<u8> {
    bytes::be(super::DATA_MAGIC as nat, 4) + bytes::be(version, 2) + bytes::be(kind, 2) + bytes::be(
        request_id,
        8,
    ) + bytes::be(sequence, 4) + bytes::be(payload.len(), 4) + payload
}

/// The number in the `width` bytes at `offset`.
pub open spec fn field(input: Seq<u8>, offset: int, width: int) -> nat {
    bytes::be_value(input.subrange(offset, offset + width))
}

/// What the header fields of a frame read as.
pub proof fn lemma_frame_fields(
    version: u16,
    kind: u16,
    request_id: u64,
    sequence: u32,
    payload: Seq<u8>,
)
    requires
        payload.len() <= u32::MAX,
    ensures
        ({
            let input = frame(
                version as nat,
                kind as nat,
                request_id as nat,
                sequence as nat,
                payload,
            );
            &&& input.len() == 24 + payload.len()
            &&& field(input, 0, 4) == super::DATA_MAGIC
            &&& field(input, 4, 2) == version
            &&& field(input, 6, 2) == kind
            &&& field(input, 8, 8) == request_id
            &&& field(input, 16, 4) == sequence
            &&& field(input, 20, 4) == payload.len()
            &&& input.skip(24) == payload
        }),
{
    let input = frame(version as nat, kind as nat, request_id as nat, sequence as nat, payload);
    bytes::lemma_be_bounds();
    bytes::lemma_be(super::DATA_MAGIC as nat, 4);
    bytes::lemma_be(version as nat, 2);
    bytes::lemma_be(kind as nat, 2);
    bytes::lemma_be(request_id as nat, 8);
    bytes::lemma_be(sequence as nat, 4);
    bytes::lemma_be(payload.len(), 4);
    assert(input.subrange(0, 4) =~= bytes::be(super::DATA_MAGIC as nat, 4));
    assert(input.subrange(4, 6) =~= bytes::be(version as nat, 2));
    assert(input.subrange(6, 8) =~= bytes::be(kind as nat, 2));
    assert(input.subrange(8, 16) =~= bytes::be(request_id as nat, 8));
    assert(input.subrange(16, 20) =~= bytes::be(sequence as nat, 4));
    assert(input.subrange(20, 24) =~= bytes::be(payload.len(), 4));
    assert(input.skip(24) =~= payload);
}

/// An input whose magic and length fields are right is the frame of its fields.
pub proof fn lemma_frame_of_fields(input: Seq<u8>)
    requires
        input.len() >= 24,
        field(input, 0, 4) == super::DATA_MAGIC,
        field(input, 20, 4) == input.len() - 24,
    ensures
        input == frame(
            field(input, 4, 2),
            field(input, 6, 2),
            field(input, 8, 8),
            field(input, 16, 4),
            input.skip(24),
        ),
{
    bytes::lemma_be_of_value(input.subrange(0, 4));
    bytes::lemma_be_of_value(input.subrange(4, 6));
    bytes::lemma_be_of_value(input.subrange(6, 8));
    bytes::lemma_be_of_value(input.subrange(8, 16));
    bytes::lemma_be_of_value(input.subrange(16, 20));
    bytes::lemma_be_of_value(input.subrange(20, 24));
    assert(input =~= input.subrange(0, 4) + input.subrange(4, 6) + input.subrange(6, 8)
        + input.subrange(8, 16) + input.subrange(16, 20) + input.subrange(20, 24) + input.skip(24));
}

/// The frame of a message.
pub fn encode_frame(
    version: u16,
    kind: u16,
    request_id: u64,
    sequence: u32,
    payload: &[u8],
) -> (out: Vec<u8>)
    requires
        payload@.len() <= u32::MAX,
    ensures
        out@ == frame(
            version as nat,
            kind as nat,
            request_id as nat,
            sequence as nat,
            payload@,
        ),
{
    let mut out: Vec<u8> = Vec::new();
    push_u32(&mut out, super::DATA_MAGIC);
    push_u16(&mut out, version);
    push_u16(&mut out, kind);
    push_u64(&mut out, request_id);
    push_u32(&mut out, sequence);
    push_u32(&mut out, payload.len() as u32);
    push_bytes(&mut out, payload);
    assert(Seq::<u8>::empty() + bytes::be(super::DATA_MAGIC as nat, 4) =~= bytes::be(
        super::DATA_MAGIC as nat,
        4,
    ));
    out
}

} // verus!
