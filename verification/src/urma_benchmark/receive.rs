//! The receiving side of one benchmark transfer.

use vstd::prelude::*;

use crate::benchmark::BenchmarkSink;
use crate::error::{protocol, Error, ErrorView, Result};
use crate::message::{
    DigestAlgorithm, IntegrationBodyView, IntegrationMessageBodyV3, IntegrationMessageV3,
    IntegrationView,
};
use crate::text;
use crate::text::{parse_unsigned, with_number, with_numbers};

verus! {

/// The receiving side of one benchmark transfer.
#[derive(Debug)]
pub struct UrmaReceiveState {
    request_id: u64,
    expected_bytes: u64,
    expected_crc32: u32,
    next_sequence: u32,
    actual_bytes: u64,
    metadata_seen: bool,
    complete: bool,
}

/// What the receiving side knows.
pub struct UrmaReceiveView {
    pub request_id: u64,
    pub expected_bytes: u64,
    pub expected_crc32: u32,
    pub next_sequence: u32,
    pub actual_bytes: u64,
    pub metadata_seen: bool,
    pub complete: bool,
}

impl View for UrmaReceiveState {
    type V = UrmaReceiveView;

    closed spec fn view(&self) -> UrmaReceiveView {
        UrmaReceiveView {
            request_id: self.request_id,
            expected_bytes: self.expected_bytes,
            expected_crc32: self.expected_crc32,
            next_sequence: self.next_sequence,
            actual_bytes: self.actual_bytes,
            metadata_seen: self.metadata_seen,
            complete: self.complete,
        }
    }
}

impl UrmaReceiveView {
    /// A receiver that waits for metadata.
    pub open spec fn fresh(request_id: u64, expected_bytes: u64, expected_crc32: u32) -> Self {
        UrmaReceiveView {
            request_id,
            expected_bytes,
            expected_crc32,
            next_sequence: 0,
            actual_bytes: 0,
            metadata_seen: false,
            complete: false,
        }
    }

    /// The receiver's invariant: no more than what was announced was received, and all of it where
    /// the transfer is complete.
    pub open spec fn wf(self) -> bool {
        &&& self.actual_bytes <= self.expected_bytes
        &&& self.complete ==> self.actual_bytes == self.expected_bytes && self.metadata_seen
    }

    /// Why metadata are refused, if they are refused.
    pub open spec fn metadata_error(self, message: IntegrationView) -> Option<ErrorView> {
        if message.request_id != self.request_id {
            Some(ErrorView::Protocol("URMA request_id mismatch"@))
        } else {
            match message.body {
                IntegrationBodyView::Metadata { offset, total_length, digest } => {
                    if message.sequence != 0 {
                        Some(ErrorView::Protocol("expected URMA Metadata"@))
                    } else if self.metadata_seen || offset != 0 || total_length
                        != self.expected_bytes {
                        Some(ErrorView::Protocol("URMA Metadata does not match benchmark case"@))
                    } else if digest.algorithm != DigestAlgorithm::Crc32 || text::unsigned_value(
                        digest.value,
                    ) != Some(self.expected_crc32 as nat) {
                        Some(ErrorView::Protocol("URMA Metadata CRC32 mismatch"@))
                    } else {
                        None
                    }
                },
                _ => Some(ErrorView::Protocol("expected URMA Metadata"@)),
            }
        }
    }

    /// Why a payload is refused, if it is refused.
    pub open spec fn data_error(self, sequence: u32, length: nat) -> Option<ErrorView> {
        if !self.metadata_seen || self.complete {
            Some(ErrorView::Protocol("URMA payload outside receiving phase"@))
        } else if sequence != self.next_sequence {
            Some(
                ErrorView::Protocol(
                    "URMA Data sequence "@ + text::decimal(sequence as nat) + ", expected "@
                        + text::decimal(self.next_sequence as nat) + ""@,
                ),
            )
        } else if length == 0 {
            Some(ErrorView::Protocol("URMA Data payload must not be empty"@))
        } else if self.actual_bytes + length > u64::MAX {
            Some(ErrorView::Protocol("URMA received length overflow"@))
        } else if self.actual_bytes + length > self.expected_bytes {
            Some(ErrorView::Protocol("URMA Data exceeds advertised length"@))
        } else {
            None
        }
    }

    /// The receiver after a payload that was not refused, and the error, if there is one.
    pub open spec fn after_data(self, length: nat) -> (Self, Option<ErrorView>) {
        let counted = UrmaReceiveView { actual_bytes: (self.actual_bytes + length) as u64, ..self };
        if self.next_sequence == u32::MAX {
            (counted, Some(ErrorView::Protocol("URMA Data sequence overflow"@)))
        } else {
            (
                UrmaReceiveView { next_sequence: (self.next_sequence + 1) as u32, ..counted },
                None,
            )
        }
    }

    /// Why an end is refused, if it is refused.
    pub open spec fn end_error(self, message: IntegrationView) -> Option<ErrorView> {
        if message.request_id != self.request_id {
            Some(ErrorView::Protocol("URMA request_id mismatch"@))
        } else if !self.metadata_seen || self.complete {
            Some(ErrorView::Protocol("URMA payload outside receiving phase"@))
        } else {
            match message.body {
                IntegrationBodyView::End { total_length, chunk_count } => {
                    if message.sequence != self.next_sequence || chunk_count != self.next_sequence {
                        Some(ErrorView::Protocol("URMA End sequence/chunk count mismatch"@))
                    } else if total_length != self.expected_bytes || self.actual_bytes
                        != self.expected_bytes {
                        Some(ErrorView::Protocol("URMA End/received length mismatch"@))
                    } else {
                        None
                    }
                },
                _ => Some(ErrorView::Protocol("expected URMA End"@)),
            }
        }
    }

    /// Why a message is refused before the sink is asked, if it is refused.
    pub open spec fn payload_error(self, message: IntegrationView) -> Option<ErrorView> {
        if message.request_id != self.request_id {
            Some(ErrorView::Protocol("URMA request_id mismatch"@))
        } else if !self.metadata_seen || self.complete {
            Some(ErrorView::Protocol("URMA payload outside receiving phase"@))
        } else {
            match message.body {
                IntegrationBodyView::Data(payload) => self.data_error(
                    message.sequence,
                    payload.len(),
                ),
                IntegrationBodyView::End { .. } => self.end_error(message),
                IntegrationBodyView::Error { code, message } => Some(
                    ErrorView::Protocol(
                        "remote URMA error "@ + text::decimal(code as nat) + ": "@ + message,
                    ),
                ),
                _ => Some(ErrorView::Protocol("expected URMA Data, End, or Error"@)),
            }
        }
    }
}

impl UrmaReceiveState {
    /// A receiver that waits for metadata.
    pub fn new(request_id: u64, expected_bytes: u64, expected_crc32: u32) -> (state: Result<Self>)
        ensures
            match state {
                Ok(state) => {
                    &&& request_id != 0
                    &&& state@ == UrmaReceiveView::fresh(request_id, expected_bytes, expected_crc32)
                    &&& state@.wf()
                },
                Err(error) => {
                    &&& request_id == 0
                    &&& error@ == ErrorView::Protocol("request_id must be non-zero"@)
                },
            },
    {
        if request_id == 0 {
            return Err(protocol("request_id must be non-zero"));
        }
        Ok(
            UrmaReceiveState {
                request_id,
                expected_bytes,
                expected_crc32,
                next_sequence: 0,
                actual_bytes: 0,
                metadata_seen: false,
                complete: false,
            },
        )
    }

    fn check_identity(&self, message: &IntegrationMessageV3) -> (checked: Result<()>)
        ensures
            match checked {
                Ok(()) => message.request_id == self@.request_id,
                Err(error) => {
                    &&& message.request_id != self@.request_id
                    &&& error@ == ErrorView::Protocol("URMA request_id mismatch"@)
                },
            },
    {
        if message.request_id != self.request_id {
            Err(protocol("URMA request_id mismatch"))
        } else {
            Ok(())
        }
    }

    /// Takes the metadata in.
    pub fn accept_metadata(&mut self, message: &IntegrationMessageV3) -> (accepted: Result<()>)
        requires
            old(self)@.wf(),
        ensures
            final(self)@.wf(),
            match accepted {
                Ok(()) => {
                    &&& old(self)@.metadata_error(message@) is None
                    &&& final(self)@ == (UrmaReceiveView { metadata_seen: true, ..old(self)@ })
                },
                Err(error) => {
                    &&& old(self)@.metadata_error(message@) == Some(error@)
                    &&& final(self)@ == old(self)@
                },
            },
    {
        match self.check_identity(message) {
            Ok(()) => {},
            Err(error) => {
                return Err(error);
            },
        }
        match &message.body {
            IntegrationMessageBodyV3::Metadata { offset, total_length, digest } => {
                if message.sequence != 0 {
                    return Err(protocol("expected URMA Metadata"));
                }
                if self.metadata_seen || *offset != 0 || *total_length != self.expected_bytes {
                    return Err(protocol("URMA Metadata does not match benchmark case"));
                }
                let announced = parse_unsigned(digest.value.as_str(), 0xffff_ffff);
                let expected = match announced {
                    Some(value) => value == self.expected_crc32 as u64,
                    None => false,
                };
                if digest.algorithm != DigestAlgorithm::Crc32 || !expected {
                    return Err(protocol("URMA Metadata CRC32 mismatch"));
                }
                self.metadata_seen = true;
                Ok(())
            },
            _ => Err(protocol("expected URMA Metadata")),
        }
    }

    fn validate_data(&self, sequence: u32, length: usize) -> (valid: Result<u64>)
        ensures
            match valid {
                Ok(next) => {
                    &&& self@.data_error(sequence, length as nat) is None
                    &&& next == self@.actual_bytes + length
                },
                Err(error) => self@.data_error(sequence, length as nat) == Some(error@),
            },
    {
        if !self.metadata_seen || self.complete {
            return Err(protocol("URMA payload outside receiving phase"));
        }
        if sequence != self.next_sequence {
            return Err(
                Error::Protocol(
                    with_numbers(
                        "URMA Data sequence ",
                        sequence as u64,
                        ", expected ",
                        self.next_sequence as u64,
                        "",
                    ),
                ),
            );
        }
        if length == 0 {
            return Err(protocol("URMA Data payload must not be empty"));
        }
        match self.actual_bytes.checked_add(length as u64) {
            None => Err(protocol("URMA received length overflow")),
            Some(next) => {
                if next > self.expected_bytes {
                    Err(protocol("URMA Data exceeds advertised length"))
                } else {
                    Ok(next)
                }
            },
        }
    }

    fn commit_data(&mut self, next: u64) -> (committed: Result<()>)
        requires
            old(self)@.wf(),
            old(self)@.actual_bytes <= next <= old(self)@.expected_bytes,
            !old(self)@.complete,
        ensures
            final(self)@.wf(),
            ({
                let (after, failed) = old(self)@.after_data((next - old(self)@.actual_bytes) as nat);
                &&& final(self)@ == after
                &&& match committed {
                    Ok(()) => failed is None,
                    Err(error) => failed == Some(error@),
                }
            }),
    {
        self.actual_bytes = next;
        match self.next_sequence.checked_add(1) {
            Some(sequence) => {
                self.next_sequence = sequence;
                Ok(())
            },
            None => Err(protocol("URMA Data sequence overflow")),
        }
    }

    /// Takes one raw bulk message in. Its sequence is carried by the order in which receives were
    /// posted, not by a header. The sink alone computes the digest.
    pub fn accept_data<S: BenchmarkSink>(&mut self, sequence: u32, payload: &[u8], sink: &mut S) -> (accepted:
        Result<()>)
        requires
            old(self)@.wf(),
            old(sink).wf(),
        ensures
            final(self)@.wf(),
            ({
                let refused = old(self)@.data_error(sequence, payload@.len());
                let (after, failed) = old(self)@.after_data(payload@.len());
                match accepted {
                    Ok(()) => {
                        &&& refused is None
                        &&& failed is None
                        &&& final(self)@ == after
                        &&& final(sink).wf()
                        &&& final(sink).expected() == old(sink).expected()
                        &&& final(sink).taken() == old(sink).taken() + payload@
                    },
                    Err(error) => if refused is Some {
                        &&& refused == Some(error@)
                        &&& final(self)@ == old(self)@
                        &&& *final(sink) == *old(sink)
                    } else {
                        ||| {
                            &&& !old(sink).takes(payload@)
                            &&& old(sink).refuses(payload@, error@)
                            &&& final(self)@ == old(self)@
                        }
                        ||| {
                            &&& failed == Some(error@)
                            &&& final(self)@ == after
                            &&& final(sink).taken() == old(sink).taken() + payload@
                        }
                    },
                }
            }),
    {
        let next: u64 = match self.validate_data(sequence, payload.len()) {
            Ok(next) => next,
            Err(error) => {
                return Err(error);
            },
        };
        match sink.write_chunk(payload) {
            Ok(()) => {},
            Err(error) => {
                return Err(error);
            },
        }
        self.commit_data(next)
    }

    /// Takes in that one raw bulk message of this length came.
    pub fn accept_data_length(&mut self, sequence: u32, length: usize) -> (accepted: Result<()>)
        requires
            old(self)@.wf(),
        ensures
            final(self)@.wf(),
            match old(self)@.data_error(sequence, length as nat) {
                Some(refused) => {
                    &&& accepted matches Err(error)
                    &&& error@ == refused
                    &&& final(self)@ == old(self)@
                },
                None => {
                    let (after, failed) = old(self)@.after_data(length as nat);
                    &&& final(self)@ == after
                    &&& match accepted {
                        Ok(()) => failed is None,
                        Err(error) => failed == Some(error@),
                    }
                },
            },
    {
        match self.validate_data(sequence, length) {
            Ok(next) => self.commit_data(next),
            Err(error) => Err(error),
        }
    }

    /// Takes the end in.
    pub fn accept_end(&mut self, message: &IntegrationMessageV3) -> (accepted: Result<()>)
        requires
            old(self)@.wf(),
        ensures
            final(self)@.wf(),
            match accepted {
                Ok(()) => {
                    &&& old(self)@.end_error(message@) is None
                    &&& final(self)@ == (UrmaReceiveView { complete: true, ..old(self)@ })
                },
                Err(error) => {
                    &&& old(self)@.end_error(message@) == Some(error@)
                    &&& final(self)@ == old(self)@
                },
            },
    {
        match self.check_identity(message) {
            Ok(()) => {},
            Err(error) => {
                return Err(error);
            },
        }
        if !self.metadata_seen || self.complete {
            return Err(protocol("URMA payload outside receiving phase"));
        }
        match &message.body {
            IntegrationMessageBodyV3::End { total_length, chunk_count } => {
                if message.sequence != self.next_sequence || *chunk_count != self.next_sequence {
                    return Err(protocol("URMA End sequence/chunk count mismatch"));
                }
                if *total_length != self.expected_bytes || self.actual_bytes
                    != self.expected_bytes {
                    return Err(protocol("URMA End/received length mismatch"));
                }
                self.complete = true;
                Ok(())
            },
            _ => Err(protocol("expected URMA End")),
        }
    }

    /// Takes a payload or the end in; says whether it was the end.
    pub fn accept_payload<S: BenchmarkSink>(&mut self, message: &IntegrationMessageV3, sink: &mut S) -> (accepted:
        Result<bool>)
        requires
            old(self)@.wf(),
            old(sink).wf(),
        ensures
            final(self)@.wf(),
            ({
                let refused = old(self)@.payload_error(message@);
                match accepted {
                    Ok(true) => {
                        &&& refused is None
                        &&& message@.body is End
                        &&& final(self)@ == (UrmaReceiveView { complete: true, ..old(self)@ })
                        &&& *final(sink) == *old(sink)
                    },
                    Ok(false) => {
                        &&& refused is None
                        &&& message@.body matches IntegrationBodyView::Data(payload)
                        &&& old(self)@.after_data(payload.len()).1 is None
                        &&& final(self)@ == old(self)@.after_data(payload.len()).0
                        &&& final(sink).wf()
                        &&& final(sink).expected() == old(sink).expected()
                        &&& final(sink).taken() == old(sink).taken() + payload
                    },
                    Err(error) => if refused is Some {
                        &&& refused == Some(error@)
                        &&& final(self)@ == old(self)@
                        &&& *final(sink) == *old(sink)
                    } else {
                        &&& message@.body matches IntegrationBodyView::Data(payload)
                        &&& {
                            ||| {
                                &&& !old(sink).takes(payload)
                                &&& old(sink).refuses(payload, error@)
                                &&& final(self)@ == old(self)@
                            }
                            ||| {
                                &&& old(self)@.after_data(payload.len()).1 == Some(error@)
                                &&& final(self)@ == old(self)@.after_data(payload.len()).0
                                &&& final(sink).taken() == old(sink).taken() + payload
                            }
                        }
                    },
                }
            }),
    {
        match self.check_identity(message) {
            Ok(()) => {},
            Err(error) => {
                return Err(error);
            },
        }
        if !self.metadata_seen || self.complete {
            return Err(protocol("URMA payload outside receiving phase"));
        }
        match &message.body {
            IntegrationMessageBodyV3::Data(payload) => {
                match self.accept_data(message.sequence, payload.as_slice(), sink) {
                    Ok(()) => Ok(false),
                    Err(error) => Err(error),
                }
            },
            IntegrationMessageBodyV3::End { total_length: _, chunk_count: _ } => {
                match self.accept_end(message) {
                    Ok(()) => Ok(true),
                    Err(error) => Err(error),
                }
            },
            IntegrationMessageBodyV3::Error { code, message } => {
                let mut detail = with_number("remote URMA error ", *code as u64, ": ");
                detail.append(message.as_str());
                Err(Error::Protocol(detail))
            },
            _ => Err(protocol("expected URMA Data, End, or Error")),
        }
    }
}

} // verus!
