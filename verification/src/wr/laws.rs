//! Where the parts of a work request's identity stand in its context.

use vstd::prelude::*;

use super::{OperationType, WrToken};

verus! {

/// A context holds the connection in its upper 16 bits, then the generation and the operation in eight
/// bits each, and the slot in its lower 32 bits.
pub proof fn contexts_are_laid_out(token: WrToken)
    requires
        token.encode_error() is None,
    ensures
        ({
            let value = token.user_ctx();
            &&& value <= u64::MAX
            &&& value / 0x1_0000_0000_0000 == token.connection_id
            &&& value / 0x100_0000_0000 % 0x100 == token.generation
            &&& value / 0x1_0000_0000 % 0x100 == match token.operation {
                OperationType::Send => 1nat,
                OperationType::Recv => 2nat,
            }
            &&& value % 0x1_0000_0000 == token.slot.position()
        }),
{
}

/// An identity is encoded exactly where it names a connection and a generation, and its slot has at
/// most 32 bits.
pub proof fn identities_are_encoded_exactly_when(token: WrToken)
    ensures
        token.encode_error() is None <==> token.connection_id > 0 && token.generation > 0
            && token.slot.position() <= u32::MAX,
{
}

/// A context is decoded exactly where it names a connection, a generation, and a send or a receive.
pub proof fn contexts_are_decoded_exactly_when(value: u64)
    ensures
        WrToken::decode_error(value) is None <==> {
            &&& value as nat / 0x1_0000_0000_0000 > 0
            &&& value as nat / 0x100_0000_0000 % 0x100 > 0
            &&& value as nat / 0x1_0000_0000 % 0x100 == 1 || value as nat / 0x1_0000_0000 % 0x100 == 2
        },
        WrToken::decode_error(value) is None ==> ({
            let token = WrToken::of_user_ctx(value);
            &&& token.connection_id == value as nat / 0x1_0000_0000_0000
            &&& token.generation == value as nat / 0x100_0000_0000 % 0x100
            &&& token.operation == OperationType::Send <==> value as nat / 0x1_0000_0000 % 0x100 == 1
        }),
{
}

} // verus!
