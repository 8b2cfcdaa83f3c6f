//! Which messages a receiver takes, and what they do.

use vstd::prelude::*;

use super::{PhaseView, ReceiveView};
use crate::message::{MessageBodyView, MessageView};
use crate::sha256;

verus! {

/// A receiver takes a message of its own request, and no other: metadata for the whole file at the
/// start, then payloads in their turn up to the advertised length, then the end where all of it has
/// come, with the advertised digest, and nothing after that.
pub proof fn messages_are_taken_exactly_when(state: ReceiveView, message: MessageView)
    requires
        state.received.len() <= u64::MAX,
    ensures
        state.refusal(message) is None <==> message.request_id == state.request_id && match state.phase {
            PhaseView::AwaitMetadata => message.sequence == 0 && (message.body matches
                MessageBodyView::Metadata { offset, .. } && offset == 0),
            PhaseView::Receiving { total_length, expected_digest } => message.sequence
                == state.next_sequence && match message.body {
                MessageBodyView::Data(payload) => state.received.len() + payload.len()
                    <= total_length,
                MessageBodyView::End { total_length: end_length, chunk_count } => chunk_count
                    == state.next_sequence && end_length == total_length && state.received.len()
                    == total_length && sha256::sha256(state.received) == expected_digest,
                _ => false,
            },
            PhaseView::Complete => false,
        },
{
}

/// Metadata open the transfer with the length and the digest that they advertise; a payload that was
/// written is appended and counted; the end completes the transfer and changes nothing else. A payload
/// that could not be written is not counted.
pub proof fn messages_move_the_transfer_on(
    state: ReceiveView,
    message: MessageView,
    written: core::result::Result<(), Seq<char>>,
)
    requires
        state.refusal(message) is None,
        state.next_sequence < u32::MAX,
    ensures
        ({
            let (after, failed) = state.accepted(message, written);
            &&& after.request_id == state.request_id
            &&& match message.body {
                MessageBodyView::Metadata { total_length, digest, .. } => {
                    &&& failed is None
                    &&& after.phase == (PhaseView::Receiving {
                        total_length,
                        expected_digest: digest,
                    })
                    &&& after.received == state.received
                    &&& after.next_sequence == state.next_sequence
                },
                MessageBodyView::Data(payload) => {
                    &&& failed is None <==> written is Ok
                    &&& after.phase == state.phase
                    &&& written is Ok ==> after.received == state.received + payload
                        && after.next_sequence == state.next_sequence + 1
                    &&& written is Err ==> after == state
                },
                _ => {
                    &&& failed is None
                    &&& after.phase is Complete
                    &&& after.received == state.received
                    &&& after.next_sequence == state.next_sequence
                },
            }
        }),
{
}

/// Pieces put together are as long as all of them, and two lists of pieces put together are the first
/// and then the second.
pub proof fn pieces_are_put_together_in_order(
    earlier: Seq<Seq<u8>>,
    later: Seq<Seq<u8>>,
    piece: Seq<u8>,
)
    ensures
        super::whole(earlier + later) == super::whole(earlier) + super::whole(later),
        super::whole(seq![piece]) == piece,
    decreases later.len(),
{
    reveal_with_fuel(super::whole, 2);
    assert(seq![piece].drop_last() =~= Seq::<Seq<u8>>::empty());
    assert(Seq::<u8>::empty() + piece =~= piece);
    if later.len() == 0 {
        assert(earlier + later =~= earlier);
        assert(super::whole(earlier) + super::whole(later) =~= super::whole(earlier));
    } else {
        pieces_are_put_together_in_order(earlier, later.drop_last(), piece);
        assert((earlier + later).drop_last() =~= earlier + later.drop_last());
        assert(super::whole(earlier + later) =~= super::whole(earlier) + super::whole(later));
    }
}

/// A digest is printed with two hexadecimal digits for each byte, in order.
pub proof fn digests_are_printed_byte_by_byte(earlier: Seq<u8>, later: Seq<u8>)
    ensures
        super::hex_bytes(earlier).len() == 2 * earlier.len(),
        super::hex_bytes(earlier + later) == super::hex_bytes(earlier) + super::hex_bytes(later),
    decreases later.len(),
{
    lemma_hex_length(earlier);
    if later.len() == 0 {
        assert(earlier + later =~= earlier);
        assert(super::hex_bytes(earlier) + super::hex_bytes(later) =~= super::hex_bytes(earlier));
    } else {
        digests_are_printed_byte_by_byte(earlier, later.drop_last());
        assert((earlier + later).drop_last() =~= earlier + later.drop_last());
        assert(super::hex_bytes(earlier + later) =~= super::hex_bytes(earlier) + super::hex_bytes(
            later,
        ));
    }
}

proof fn lemma_hex_length(bytes: Seq<u8>)
    ensures
        super::hex_bytes(bytes).len() == 2 * bytes.len(),
    decreases bytes.len(),
{
    if bytes.len() > 0 {
        lemma_hex_length(bytes.drop_last());
        reveal_with_fuel(crate::text::hex, 3);
    }
}

} // verus!
