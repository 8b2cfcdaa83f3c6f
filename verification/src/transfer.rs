//! Receiving one file as a sequence of messages.

use vstd::prelude::*;

use crate::bytes::same_bytes;
use crate::error::{protocol, Error, ErrorView, Result};
use crate::message::{Message, MessageBody, MessageBodyView, MessageView};
use crate::sha256;
use crate::sha256::Sha256Hasher;
use crate::text;
use crate::text::{push_decimal, push_hex, with_number, with_numbers};

pub mod laws;

verus! {

/// What a completed transfer moved.
#[derive(Clone, Copy, Debug, Eq, PartialEq)]
pub struct TransferSummary {
    pub bytes: u64,
    pub data_messages: u32,
    pub digest: [u8; 32],
}

/// What a receiver waits for.
enum Phase {
    AwaitMetadata,
    Receiving { total_length: u64, expected_digest: [u8; 32] },
    Complete,
}

/// What a receiver waits for.
pub enum PhaseView {
    AwaitMetadata,
    Receiving { total_length: u64, expected_digest: Seq<u8> },
    Complete,
}

/// The receiving side of one transfer.
pub struct ReceiveState {
    request_id: u64,
    phase: Phase,
    next_sequence: u32,
    received: u64,
    hasher: Sha256Hasher,
}

/// What a receiver knows.
#[verifier::ext_equal]
pub struct ReceiveView {
    pub request_id: u64,
    pub phase: PhaseView,
    pub next_sequence: u32,
    /// The payloads accepted so far, in order.
    pub received: Seq<u8>,
}

impl View for ReceiveState {
    type V = ReceiveView;

    closed spec fn view(&self) -> ReceiveView {
        ReceiveView {
            request_id: self.request_id,
            phase: match self.phase {
                Phase::AwaitMetadata => PhaseView::AwaitMetadata,
                Phase::Receiving { total_length, expected_digest } => PhaseView::Receiving {
                    total_length,
                    expected_digest: expected_digest@,
                },
                Phase::Complete => PhaseView::Complete,
            },
            next_sequence: self.next_sequence,
            received: self.hasher@,
        }
    }
}

/// The bytes in hexadecimal, two digits each.
pub open spec fn hex_bytes(bytes: Seq<u8>) -> Seq<char>
    decreases bytes.len(),
{
    if bytes.len() == 0 {
        Seq::empty()
    } else {
        hex_bytes(bytes.drop_last()) + text::hex(bytes.last() as nat, 2)
    }
}

/// A digest in hexadecimal.
pub fn hex_digest(digest: &[u8; 32]) -> (output: String)
    ensures
        output@ == hex_bytes(digest@),
{
    let mut output = String::new();
    let mut index: usize = 0;
    while index < 32
        invariant
            index <= 32,
            digest@.len() == 32,
            output@ == hex_bytes(digest@.take(index as int)),
        decreases 32 - index,
    {
        proof {
            let longer = digest@.take(index + 1);
            assert(longer.drop_last() =~= digest@.take(index as int));
            assert(longer.last() == digest@[index as int]);
        }
        push_hex(&mut output, digest[index] as u64, 2);
        index += 1;
    }
    assert(digest@.take(32) =~= digest@);
    output
}

/// The error that a peer's own failure is reported as.
pub open spec fn remote_error(code: u32, message: Seq<char>) -> ErrorView {
    ErrorView::Protocol("remote error "@ + text::decimal(code as nat) + ": "@ + message)
}

impl ReceiveView {
    /// A receiver that waits for metadata.
    pub open spec fn fresh(request_id: u64) -> Self {
        ReceiveView {
            request_id,
            phase: PhaseView::AwaitMetadata,
            next_sequence: 0,
            received: Seq::empty(),
        }
    }

    /// Whether a message is an end that only its digest can refuse.
    pub open spec fn awaits_digest(self, message: MessageView) -> bool {
        &&& message.request_id == self.request_id
        &&& self.phase matches PhaseView::Receiving { total_length, expected_digest }
        &&& message.body matches MessageBodyView::End { total_length: end_length, chunk_count }
        &&& message.sequence == self.next_sequence
        &&& chunk_count == self.next_sequence
        &&& end_length == total_length
        &&& self.received.len() == total_length
    }

    /// Why a message is refused before anything is written, if it is refused.
    pub open spec fn refusal(self, message: MessageView) -> Option<ErrorView> {
        if message.request_id != self.request_id {
            Some(
                ErrorView::Protocol(
                    "message request_id "@ + text::decimal(message.request_id as nat)
                        + " does not match "@ + text::decimal(self.request_id as nat) + ""@,
                ),
            )
        } else {
            match self.phase {
                PhaseView::AwaitMetadata => match message.body {
                    MessageBodyView::Metadata { offset, total_length, digest } => {
                        if message.sequence != 0 {
                            Some(ErrorView::Protocol("Metadata sequence must be zero"@))
                        } else if offset != 0 {
                            Some(
                                ErrorView::Protocol(
                                    "demo only supports offset zero, got "@ + text::decimal(
                                        offset as nat,
                                    ) + ""@,
                                ),
                            )
                        } else {
                            None
                        }
                    },
                    MessageBodyView::Error { code, message } => Some(remote_error(code, message)),
                    _ => Some(ErrorView::Protocol("expected Metadata or Error"@)),
                },
                PhaseView::Receiving { total_length, expected_digest } => match message.body {
                    MessageBodyView::Data(payload) => self.data_refusal(
                        message.sequence,
                        payload.len(),
                        total_length,
                    ),
                    MessageBodyView::End { total_length: end_length, chunk_count } => {
                        self.end_refusal(
                            message.sequence,
                            end_length,
                            chunk_count,
                            total_length,
                            expected_digest,
                        )
                    },
                    MessageBodyView::Error { code, message } => Some(remote_error(code, message)),
                    _ => Some(ErrorView::Protocol("expected Data, End, or Error"@)),
                },
                PhaseView::Complete => Some(
                    ErrorView::Protocol("message received after transfer completion"@),
                ),
            }
        }
    }

    /// Why a payload is refused, if it is refused.
    pub open spec fn data_refusal(self, sequence: u32, length: nat, total_length: u64) -> Option<
        ErrorView,
    > {
        if sequence != self.next_sequence {
            Some(
                ErrorView::Protocol(
                    "Data sequence "@ + text::decimal(sequence as nat) + ", expected "@
                        + text::decimal(self.next_sequence as nat) + ""@,
                ),
            )
        } else if self.received.len() + length > u64::MAX {
            Some(ErrorView::Protocol("received length overflow"@))
        } else if self.received.len() + length > total_length {
            Some(
                ErrorView::Protocol(
                    "Data exceeds advertised length "@ + text::decimal(total_length as nat) + ""@,
                ),
            )
        } else {
            None
        }
    }

    /// Why the end of a transfer is refused, if it is refused.
    pub open spec fn end_refusal(
        self,
        sequence: u32,
        end_length: u64,
        chunk_count: u32,
        total_length: u64,
        expected_digest: Seq<u8>,
    ) -> Option<ErrorView> {
        if sequence != self.next_sequence || chunk_count != self.next_sequence {
            Some(
                ErrorView::Protocol(
                    "End chunk count/sequence does not match "@ + text::decimal(
                        self.next_sequence as nat,
                    ) + ""@,
                ),
            )
        } else if end_length != total_length || self.received.len() != total_length {
            Some(
                ErrorView::Protocol(
                    "End length "@ + text::decimal(end_length as nat) + ", received "@
                        + text::decimal(self.received.len()) + ", advertised "@ + text::decimal(
                        total_length as nat,
                    ),
                ),
            )
        } else if sha256::sha256(self.received) != expected_digest {
            Some(
                ErrorView::Protocol(
                    "digest mismatch: expected "@ + hex_bytes(expected_digest) + ", got "@
                        + hex_bytes(sha256::sha256(self.received)),
                ),
            )
        } else {
            None
        }
    }

    /// The receiver after a message that was not refused, where `written` says what writing its
    /// payload gave, and the error, if there is one.
    pub open spec fn accepted(
        self,
        message: MessageView,
        written: core::result::Result<(), Seq<char>>,
    ) -> (Self, Option<ErrorView>) {
        match message.body {
            MessageBodyView::Metadata { offset, total_length, digest } => (
                ReceiveView {
                    phase: PhaseView::Receiving { total_length, expected_digest: digest },
                    ..self
                },
                None,
            ),
            MessageBodyView::Data(payload) => match written {
                Err(message) => (
                    self,
                    Some(ErrorView::Io { operation: "write output file"@, message }),
                ),
                Ok(()) => if self.next_sequence == u32::MAX {
                    (
                        ReceiveView { received: self.received + payload, ..self },
                        Some(ErrorView::Protocol("Data sequence overflow"@)),
                    )
                } else {
                    (
                        ReceiveView {
                            received: self.received + payload,
                            next_sequence: (self.next_sequence + 1) as u32,
                            ..self
                        },
                        None,
                    )
                },
            },
            _ => (ReceiveView { phase: PhaseView::Complete, ..self }, None),
        }
    }
}

/// What writing a payload gave.
pub open spec fn written_view(written: core::result::Result<(), String>) -> core::result::Result<
    (),
    Seq<char>,
> {
    match written {
        Ok(()) => Ok(()),
        Err(message) => Err(message@),
    }
}

impl ReceiveState {
    /// Whether the length counts the payloads.
    pub closed spec fn wf(self) -> bool {
        self.received == self.hasher@.len()
    }

    /// A receiver that waits for metadata.
    pub fn new(request_id: u64) -> (state: Result<Self>)
        ensures
            match state {
                Ok(state) => {
                    &&& request_id != 0
                    &&& state.wf()
                    &&& state@ == ReceiveView::fresh(request_id)
                },
                Err(error) => {
                    &&& request_id == 0
                    &&& error@ == ErrorView::Protocol("request_id must be non-zero"@)
                },
            },
    {
        if request_id == 0 {
            return Err(protocol("request_id must be non-zero"));
        }
        Ok(
            ReceiveState {
                request_id,
                phase: Phase::AwaitMetadata,
                next_sequence: 0,
                received: 0,
                hasher: Sha256Hasher::new(),
            },
        )
    }

    fn check_data(&self, sequence: u32, length: usize, total_length: u64) -> (checked: Result<()>)
        requires
            self.wf(),
        ensures
            match checked {
                Ok(()) => self@.data_refusal(sequence, length as nat, total_length) is None,
                Err(error) => self@.data_refusal(sequence, length as nat, total_length) == Some(
                    error@,
                ),
            },
    {
        if sequence != self.next_sequence {
            return Err(
                Error::Protocol(
                    with_numbers(
                        "Data sequence ",
                        sequence as u64,
                        ", expected ",
                        self.next_sequence as u64,
                        "",
                    ),
                ),
            );
        }
        match self.received.checked_add(length as u64) {
            None => Err(protocol("received length overflow")),
            Some(next) => {
                if next > total_length {
                    Err(
                        Error::Protocol(
                            with_number("Data exceeds advertised length ", total_length, ""),
                        ),
                    )
                } else {
                    Ok(())
                }
            },
        }
    }

    fn check_end(
        &self,
        sequence: u32,
        end_length: u64,
        chunk_count: u32,
        total_length: u64,
        expected_digest: &[u8; 32],
    ) -> (checked: Result<()>)
        requires
            self.wf(),
            sequence == self@.next_sequence && chunk_count == self@.next_sequence && end_length
                == total_length && self@.received.len() == total_length
                ==> self@.received.len() <= sha256::MAX_INPUT_LEN,
        ensures
            ({
                let refused = self@.end_refusal(
                    sequence,
                    end_length,
                    chunk_count,
                    total_length,
                    expected_digest@,
                );
                match checked {
                    Ok(()) => refused is None,
                    Err(error) => refused == Some(error@),
                }
            }),
    {
        if sequence != self.next_sequence || chunk_count != self.next_sequence {
            return Err(
                Error::Protocol(
                    with_number(
                        "End chunk count/sequence does not match ",
                        self.next_sequence as u64,
                        "",
                    ),
                ),
            );
        }
        if end_length != total_length || self.received != total_length {
            let mut detail = with_numbers(
                "End length ",
                end_length,
                ", received ",
                self.received,
                ", advertised ",
            );
            push_decimal(&mut detail, total_length);
            return Err(Error::Protocol(detail));
        }
        let digest: [u8; 32] = self.hasher.digest();
        if !same_bytes(&digest, expected_digest) {
            let mut detail = "digest mismatch: expected ".to_owned();
            detail.append(hex_digest(expected_digest).as_str());
            detail.append(", got ");
            detail.append(hex_digest(&digest).as_str());
            return Err(Error::Protocol(detail));
        }
        Ok(())
    }

    /// Whether a message is accepted. The payload of an accepted data message is written before
    /// [`Self::accept`] is called.
    pub fn check(&self, message: &Message) -> (checked: Result<()>)
        requires
            self.wf(),
            self@.awaits_digest(message@) ==> self@.received.len() <= sha256::MAX_INPUT_LEN,
        ensures
            match checked {
                Ok(()) => self@.refusal(message@) is None,
                Err(error) => self@.refusal(message@) == Some(error@),
            },
    {
        if message.request_id != self.request_id {
            return Err(
                Error::Protocol(
                    with_numbers(
                        "message request_id ",
                        message.request_id,
                        " does not match ",
                        self.request_id,
                        "",
                    ),
                ),
            );
        }
        match &self.phase {
            Phase::AwaitMetadata => match &message.body {
                MessageBody::Metadata { offset, total_length: _, digest: _ } => {
                    if message.sequence != 0 {
                        return Err(protocol("Metadata sequence must be zero"));
                    }
                    if *offset != 0 {
                        return Err(
                            Error::Protocol(
                                with_number("demo only supports offset zero, got ", *offset, ""),
                            ),
                        );
                    }
                    Ok(())
                },
                MessageBody::Error { code, message } => Err(
                    Self::remote(*code, message.as_str()),
                ),
                _ => Err(protocol("expected Metadata or Error")),
            },
            Phase::Receiving { total_length, expected_digest } => match &message.body {
                MessageBody::Data(payload) => self.check_data(
                    message.sequence,
                    payload.len(),
                    *total_length,
                ),
                MessageBody::End { total_length: end_length, chunk_count } => self.check_end(
                    message.sequence,
                    *end_length,
                    *chunk_count,
                    *total_length,
                    expected_digest,
                ),
                MessageBody::Error { code, message } => Err(
                    Self::remote(*code, message.as_str()),
                ),
                _ => Err(protocol("expected Data, End, or Error")),
            },
            Phase::Complete => Err(protocol("message received after transfer completion")),
        }
    }

    fn remote(code: u32, message: &str) -> (error: Error)
        ensures
            error@ == remote_error(code, message@),
    {
        let mut detail = with_number("remote error ", code as u64, ": ");
        detail.append(message);
        Error::Protocol(detail)
    }

    /// Takes a message in. `written` says what writing the payload of an accepted data message
    /// gave; it counts only for such a message. A summary comes with the last message.
    pub fn accept(&mut self, message: &Message, written: core::result::Result<(), String>) -> (accepted:
        Result<Option<TransferSummary>>)
        requires
            old(self).wf(),
            old(self)@.awaits_digest(message@) ==> old(self)@.received.len()
                <= sha256::MAX_INPUT_LEN,
        ensures
            final(self).wf(),
            match old(self)@.refusal(message@) {
                Some(expected) => {
                    &&& accepted matches Err(error)
                    &&& error@ == expected
                    &&& final(self)@ == old(self)@
                },
                None => {
                    let (after, failed) = old(self)@.accepted(message@, written_view(written));
                    &&& final(self)@ == after
                    &&& match accepted {
                        Err(error) => failed == Some(error@),
                        Ok(None) => failed is None && !(after.phase is Complete),
                        Ok(Some(summary)) => {
                            &&& failed is None
                            &&& after.phase is Complete
                            &&& summary.bytes == after.received.len()
                            &&& summary.data_messages == after.next_sequence
                            &&& summary.digest@ == sha256::sha256(after.received)
                        },
                    }
                },
            },
    {
        match self.check(message) {
            Ok(()) => {},
            Err(error) => {
                return Err(error);
            },
        }
        match &message.body {
            MessageBody::Metadata { offset: _, total_length, digest } => {
                self.phase = Phase::Receiving {
                    total_length: *total_length,
                    expected_digest: *digest,
                };
                Ok(None)
            },
            MessageBody::Data(payload) => {
                match written {
                    Ok(()) => {},
                    Err(message) => {
                        return Err(Error::Io { operation: "write output file", message });
                    },
                }
                self.hasher.update(payload);
                self.received = self.received + payload.len() as u64;
                match self.next_sequence.checked_add(1) {
                    Some(next) => {
                        self.next_sequence = next;
                        Ok(None)
                    },
                    None => Err(protocol("Data sequence overflow")),
                }
            },
            _ => {
                let digest: [u8; 32] = self.hasher.digest();
                self.phase = Phase::Complete;
                Ok(
                    Some(
                        TransferSummary {
                            bytes: self.received,
                            data_messages: self.next_sequence,
                            digest,
                        },
                    ),
                )
            },
        }
    }
}

/// A transfer that completes moved exactly the advertised number of bytes, in as many data messages
/// as the sender counted, and they have the advertised digest.
pub proof fn completed_transfer_is_the_advertised_one(
    before: ReceiveView,
    message: MessageView,
    written: core::result::Result<(), Seq<char>>,
)
    requires
        before.refusal(message) is None,
        before.accepted(message, written).0.phase is Complete,
    ensures
        before.phase matches PhaseView::Receiving { total_length, expected_digest } && {
            &&& before.received.len() == total_length
            &&& sha256::sha256(before.received) == expected_digest
            &&& message.body matches MessageBodyView::End { total_length: end_length, chunk_count }
            &&& end_length == total_length
            &&& chunk_count == before.next_sequence
        },
{
}

/// Payloads are taken strictly in order, one sequence number at a time, and never beyond the
/// advertised length.
pub proof fn payloads_are_taken_in_order(
    before: ReceiveView,
    message: MessageView,
    written: core::result::Result<(), Seq<char>>,
)
    requires
        before.refusal(message) is None,
    ensures
        ({
            let after = before.accepted(message, written).0;
            &&& before.received.is_prefix_of(after.received)
            &&& after.received != before.received ==> {
                &&& message.sequence == before.next_sequence
                &&& message.body matches MessageBodyView::Data(payload)
                &&& after.received == before.received + payload
                &&& before.phase matches PhaseView::Receiving { total_length, expected_digest }
                &&& after.received.len() <= total_length
            }
        }),
{
}

/// Pieces put together.
pub open spec fn whole(pieces: Seq<Seq<u8>>) -> Seq<u8>
    decreases pieces.len(),
{
    if pieces.len() == 0 {
        Seq::empty()
    } else {
        whole(pieces.drop_last()) + pieces.last()
    }
}

/// A receiver after messages whose payloads were all written, or the first error.
pub open spec fn taken(state: ReceiveView, messages: Seq<MessageView>) -> core::result::Result<
    ReceiveView,
    ErrorView,
>
    decreases messages.len(),
{
    if messages.len() == 0 {
        Ok(state)
    } else {
        match taken(state, messages.drop_last()) {
            Err(error) => Err(error),
            Ok(before) => match before.refusal(messages.last()) {
                Some(error) => Err(error),
                None => match before.accepted(messages.last(), Ok(())).1 {
                    Some(error) => Err(error),
                    None => Ok(before.accepted(messages.last(), Ok(())).0),
                },
            },
        }
    }
}

/// The messages of a transfer before its end: the metadata, then the payloads in order.
pub open spec fn opening(
    request_id: u64,
    total_length: u64,
    digest: Seq<u8>,
    payloads: Seq<Seq<u8>>,
) -> Seq<MessageView> {
    seq![
        MessageView {
            request_id,
            sequence: 0,
            body: MessageBodyView::Metadata { offset: 0, total_length, digest },
        },
    ] + Seq::new(
        payloads.len(),
        |i: int|
            MessageView {
                request_id,
                sequence: i as u32,
                body: MessageBodyView::Data(payloads[i]),
            },
    )
}

/// A receiver that has taken the metadata and these payloads.
pub open spec fn receiving(
    request_id: u64,
    total_length: u64,
    digest: Seq<u8>,
    payloads: Seq<Seq<u8>>,
) -> ReceiveView {
    ReceiveView {
        request_id,
        phase: PhaseView::Receiving { total_length, expected_digest: digest },
        next_sequence: payloads.len() as u32,
        received: whole(payloads),
    }
}

/// The message that ends a transfer.
pub open spec fn ending(request_id: u64, sequence: u32, total_length: u64) -> MessageView {
    MessageView {
        request_id,
        sequence,
        body: MessageBodyView::End { total_length, chunk_count: sequence },
    }
}

/// The metadata and the payloads of a transfer are all taken exactly where the payloads are no longer
/// than advertised and can be numbered; what was written is then the payloads in order.
pub proof fn openings_are_taken_up_to_the_advertised_length(
    request_id: u64,
    total_length: u64,
    digest: Seq<u8>,
    payloads: Seq<Seq<u8>>,
)
    ensures
        ({
            let end = taken(
                ReceiveView::fresh(request_id),
                opening(request_id, total_length, digest, payloads),
            );
            if payloads.len() <= u32::MAX && whole(payloads).len() <= total_length {
                end == Ok::<ReceiveView, ErrorView>(
                    receiving(request_id, total_length, digest, payloads),
                )
            } else {
                end matches Err(error) && error is Protocol
            }
        }),
    decreases payloads.len(),
{
    let start = ReceiveView::fresh(request_id);
    let messages = opening(request_id, total_length, digest, payloads);
    if payloads.len() == 0 {
        assert(messages.drop_last() =~= Seq::<MessageView>::empty());
        assert(taken(start, messages.drop_last()) == Ok::<ReceiveView, ErrorView>(start));
    } else {
        let earlier = payloads.drop_last();
        openings_are_taken_up_to_the_advertised_length(request_id, total_length, digest, earlier);
        assert(messages.drop_last() =~= opening(request_id, total_length, digest, earlier));
        assert(messages.last() == (MessageView {
            request_id,
            sequence: (payloads.len() - 1) as u32,
            body: MessageBodyView::Data(payloads.last()),
        }));
    }
}

/// A transfer whose metadata and payloads were taken completes exactly where its end names the number
/// of payloads and the advertised length, the payloads have that length, and their digest is the
/// advertised one. Any other end is a protocol error. Once a transfer is complete, every further
/// message is refused.
pub proof fn transfers_end_exactly_as_advertised(
    request_id: u64,
    total_length: u64,
    digest: Seq<u8>,
    payloads: Seq<Seq<u8>>,
    sequence: u32,
    end_length: u64,
)
    requires
        taken(
            ReceiveView::fresh(request_id),
            opening(request_id, total_length, digest, payloads),
        ) is Ok,
    ensures
        ({
            let before = taken(
                ReceiveView::fresh(request_id),
                opening(request_id, total_length, digest, payloads),
            )->Ok_0;
            let end = ending(request_id, sequence, end_length);
            let (after, failed) = before.accepted(end, Ok(()));
            let advertised = {
                &&& sequence == payloads.len()
                &&& end_length == total_length
                &&& whole(payloads).len() == total_length
                &&& sha256::sha256(whole(payloads)) == digest
            };
            &&& before.received == whole(payloads)
            &&& if advertised {
                &&& before.refusal(end) is None
                &&& failed is None
                &&& after.phase is Complete
                &&& after.received == whole(payloads)
                &&& after.next_sequence == payloads.len()
                &&& forall|later: MessageView| #[trigger] after.refusal(later) is Some
            } else {
                before.refusal(end) matches Some(error) && error is Protocol
            }
        }),
{
    openings_are_taken_up_to_the_advertised_length(request_id, total_length, digest, payloads);
}

/// The digest and the length of an input that is read piece by piece.
pub struct DigestReader {
    hasher: Sha256Hasher,
    length: u64,
}

impl View for DigestReader {
    type V = Seq<u8>;

    /// The bytes read so far.
    closed spec fn view(&self) -> Seq<u8> {
        self.hasher@
    }
}

impl DigestReader {
    /// Whether the length counts the bytes read.
    pub closed spec fn wf(self) -> bool {
        self.length == self.hasher@.len()
    }

    /// A reader that has read nothing.
    pub fn new() -> (reader: Self)
        ensures
            reader.wf(),
            reader@ == Seq::<u8>::empty(),
    {
        DigestReader { hasher: Sha256Hasher::new(), length: 0 }
    }

    /// Takes in what one read gave and says whether the input has ended.
    pub fn observe(&mut self, read: core::result::Result<&[u8], String>) -> (ended: Result<bool>)
        requires
            old(self).wf(),
        ensures
            match read {
                Ok(bytes) => if bytes@.len() == 0 {
                    ended == Ok::<bool, Error>(true) && final(self)@ == old(self)@
                        && final(self).wf()
                } else if old(self)@.len() + bytes@.len() > u64::MAX {
                    &&& ended matches Err(error)
                    &&& error@ == ErrorView::Protocol("input length overflow"@)
                    &&& final(self)@ == old(self)@ && final(self).wf()
                } else {
                    ended == Ok::<bool, Error>(false) && final(self)@ == old(self)@ + bytes@
                        && final(self).wf()
                },
                Err(message) => {
                    &&& ended matches Err(error)
                    &&& error@ == (ErrorView::Io {
                        operation: "read input file for digest"@,
                        message: message@,
                    })
                    &&& final(self)@ == old(self)@ && final(self).wf()
                },
            },
    {
        match read {
            Ok(bytes) => {
                if bytes.len() == 0 {
                    return Ok(true);
                }
                match self.length.checked_add(bytes.len() as u64) {
                    Some(length) => {
                        self.hasher.update(bytes);
                        self.length = length;
                        Ok(false)
                    },
                    None => Err(protocol("input length overflow")),
                }
            },
            Err(message) => Err(Error::Io { operation: "read input file for digest", message }),
        }
    }

    /// The digest and the length of what was read.
    pub fn finish(&self) -> (finished: ([u8; 32], u64))
        requires
            self.wf(),
            self@.len() <= sha256::MAX_INPUT_LEN,
        ensures
            finished.0@ == sha256::sha256(self@),
            finished.1 == self@.len(),
    {
        (self.hasher.digest(), self.length)
    }
}

/// The digest and the length of an input that is all there.
pub fn digest_reader(input: &[u8]) -> (digested: Result<([u8; 32], u64)>)
    requires
        input@.len() <= sha256::MAX_INPUT_LEN,
    ensures
        digested matches Ok(summary) && summary.0@ == sha256::sha256(input@) && summary.1
            == input@.len(),
{
    let mut reader = DigestReader::new();
    if input.len() > 0 {
        match reader.observe(Ok(input)) {
            Ok(_) => {},
            Err(error) => {
                return Err(error);
            },
        }
    }
    assert(reader@ =~= input@);
    Ok(reader.finish())
}

} // verus!
