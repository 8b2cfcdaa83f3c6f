//! The control messages of a run: READY, START, CREDIT and DONE.

use vstd::prelude::*;

use super::profile::UrmaBenchmarkProfile;
use super::{RemoteCreditView, RemoteReceiveCredit};
use crate::benchmark::{CpuUsage, IntegrityResult};
use crate::bytes;
use crate::bytes::{push_bytes, push_u16, push_u32, push_u64, read_u16, read_u32, read_u64, same_bytes};
use crate::completion::CompletionStats;
use crate::error::{invalid, protocol, Error, ErrorView, Result};
use crate::text;
use crate::text::{push_decimal, quote, same_text, text_from_utf8, with_number, with_numbers};

verus! {

pub const CONTROL_MAGIC: u32 = 0x4252_4d41;

pub const CONTROL_VERSION: u16 = 3;

pub const CONTROL_HEADER_LEN: usize = 12;

pub const MAX_CONTROL_PAYLOAD: usize = 4096;

/// The child's receives are posted.
pub const READY: u16 = 1;

/// The parent starts to send.
pub const START: u16 = 2;

/// The child has verified the payload.
pub const DONE: u16 = 3;

/// The child has posted more receives.
pub const CREDIT: u16 = 4;

/// The header of a control message.
pub open spec fn header_wire(kind: u16, length: nat) -> Seq<u8> {
    bytes::be(0x4252_4d41, 4) + bytes::be(3, 2) + bytes::be(kind as nat, 2) + bytes::be(length, 4)
}

/// The kind and the payload length of a control message, or why its header is refused.
pub open spec fn header_parse(header: Seq<u8>) -> core::result::Result<(u16, nat), ErrorView> {
    if bytes::be_value(header.subrange(0, 4)) != 0x4252_4d41 || bytes::be_value(
        header.subrange(4, 6),
    ) != 3 || bytes::be_value(header.subrange(8, 12)) > 4096 {
        Err(ErrorView::Protocol("invalid URMA benchmark control frame"@))
    } else {
        Ok(
            (
                bytes::be_value(header.subrange(6, 8)) as u16,
                bytes::be_value(header.subrange(8, 12)),
            ),
        )
    }
}

/// The header of a control message with a payload.
pub fn control_header(kind: u16, payload: &[u8]) -> (header: Result<Vec<u8>>)
    ensures
        match header {
            Ok(header) => payload@.len() <= 4096 && header@ == header_wire(kind, payload@.len()),
            Err(error) => {
                &&& payload@.len() > 4096
                &&& error@ == ErrorView::InvalidConfiguration(
                    "URMA benchmark control payload too large"@,
                )
            },
        },
{
    if payload.len() > MAX_CONTROL_PAYLOAD {
        return Err(invalid("URMA benchmark control payload too large"));
    }
    let mut header: Vec<u8> = Vec::new();
    push_u32(&mut header, CONTROL_MAGIC);
    push_u16(&mut header, CONTROL_VERSION);
    push_u16(&mut header, kind);
    push_u32(&mut header, payload.len() as u32);
    assert(header@ =~= header_wire(kind, payload@.len()));
    Ok(header)
}

/// The kind and the payload length that a header announces.
pub fn parse_control_header(header: &[u8]) -> (parsed: Result<(u16, usize)>)
    requires
        header@.len() == 12,
    ensures
        match parsed {
            Ok((kind, length)) => header_parse(header@) == Ok::<(u16, nat), ErrorView>(
                (kind, length as nat),
            ),
            Err(error) => header_parse(header@) == Err::<(u16, nat), ErrorView>(error@),
        },
{
    let magic: u32 = read_u32(header, 0);
    let version: u16 = read_u16(header, 4);
    let kind: u16 = read_u16(header, 6);
    let length: u32 = read_u32(header, 8);
    if magic != CONTROL_MAGIC || version != CONTROL_VERSION || length > 4096 {
        return Err(protocol("invalid URMA benchmark control frame"));
    }
    Ok((kind, length as usize))
}

/// Reading a control header gives back the kind and the length that it was written with.
pub proof fn control_header_round_trip(kind: u16, length: nat)
    requires
        length <= 4096,
    ensures
        header_wire(kind, length).len() == 12,
        header_parse(header_wire(kind, length)) == Ok::<(u16, nat), ErrorView>((kind, length)),
{
    let header = header_wire(kind, length);
    bytes::lemma_be_bounds();
    bytes::lemma_be(0x4252_4d41, 4);
    bytes::lemma_be(3, 2);
    bytes::lemma_be(kind as nat, 2);
    bytes::lemma_be(length, 4);
    assert(header.subrange(0, 4) =~= bytes::be(0x4252_4d41, 4));
    assert(header.subrange(4, 6) =~= bytes::be(3, 2));
    assert(header.subrange(6, 8) =~= bytes::be(kind as nat, 2));
    assert(header.subrange(8, 12) =~= bytes::be(length, 4));
}

/// Whether a control message is of the kind that was waited for.
pub fn expect_kind(kind: u16, expected: u16) -> (checked: Result<()>)
    ensures
        match checked {
            Ok(()) => kind == expected,
            Err(error) => {
                &&& kind != expected
                &&& error@ == ErrorView::Protocol(
                    "received URMA control kind "@ + text::decimal(kind as nat) + ", expected "@
                        + text::decimal(expected as nat) + ""@,
                )
            },
        },
{
    if kind != expected {
        return Err(
            Error::Protocol(
                with_numbers(
                    "received URMA control kind ",
                    kind as u64,
                    ", expected ",
                    expected as u64,
                    "",
                ),
            ),
        );
    }
    Ok(())
}

/// Whether a control message names the case of this run.
pub fn expect_case(payload: &[u8], case_id: &str) -> (checked: Result<()>)
    ensures
        match checked {
            Ok(()) => payload@ == text::utf8(case_id@),
            Err(error) => {
                &&& payload@ != text::utf8(case_id@)
                &&& error@ == ErrorView::Protocol("URMA benchmark control case_id mismatch"@)
            },
        },
{
    if !same_bytes(payload, case_id.as_bytes()) {
        return Err(protocol("URMA benchmark control case_id mismatch"));
    }
    Ok(())
}

/// The payload of READY.
pub open spec fn ready_wire(case_id: Seq<char>, credit: nat, profile: u8) -> Seq<u8> {
    bytes::be(text::utf8(case_id).len(), 2) + text::utf8(case_id) + bytes::be(credit, 4)
        + seq![profile]
}

/// The case, the credit and the profile that READY announces, or why it is refused.
pub open spec fn ready_parse(payload: Seq<u8>) -> core::result::Result<
    (Seq<char>, nat, u8),
    ErrorView,
> {
    let length = bytes::be_value(payload.subrange(0, 2)) as int;
    let case = payload.subrange(2, 2 + length);
    let credit = bytes::be_value(payload.subrange(2 + length, 6 + length));
    if payload.len() < 7 {
        Err(ErrorView::Protocol("truncated URMA READY payload"@))
    } else if payload.len() != length + 7 {
        Err(ErrorView::Protocol("invalid URMA READY payload length"@))
    } else if !vstd::utf8::valid_utf8(case) {
        Err(ErrorView::Protocol("URMA READY case_id is not UTF-8"@))
    } else if credit == 0 {
        Err(ErrorView::Protocol("URMA READY advertised zero receive credit"@))
    } else {
        Ok((vstd::utf8::decode_utf8(case), credit, payload.last()))
    }
}

/// The payload of READY.
pub fn encode_ready(case_id: &str, initial_credit: usize, profile: UrmaBenchmarkProfile) -> (payload:
    Result<Vec<u8>>)
    ensures
        match payload {
            Ok(payload) => {
                &&& text::utf8(case_id@).len() <= u16::MAX
                &&& initial_credit <= u32::MAX
                &&& payload@ == ready_wire(case_id@, initial_credit as nat, profile.wire())
            },
            Err(error) => if text::utf8(case_id@).len() > u16::MAX {
                error@ == ErrorView::InvalidConfiguration("case_id too long"@)
            } else {
                &&& initial_credit > u32::MAX
                &&& error@ == ErrorView::InvalidConfiguration(
                    "initial remote receive credit exceeds u32"@,
                )
            },
        },
{
    let case = case_id.as_bytes();
    if case.len() > u16::MAX as usize {
        return Err(invalid("case_id too long"));
    }
    if initial_credit as u64 > u32::MAX as u64 {
        return Err(invalid("initial remote receive credit exceeds u32"));
    }
    let mut payload: Vec<u8> = Vec::new();
    push_u16(&mut payload, case.len() as u16);
    push_bytes(&mut payload, case);
    push_u32(&mut payload, initial_credit as u32);
    payload.push(profile.wire_id());
    assert(payload@ =~= ready_wire(case_id@, initial_credit as nat, profile.wire()));
    Ok(payload)
}

/// The case, the credit and the profile that READY announces.
pub fn decode_ready(payload: &[u8]) -> (decoded: Result<(String, usize, u8)>)
    ensures
        match decoded {
            Ok((case_id, credit, profile)) => ready_parse(payload@) == Ok::<
                (Seq<char>, nat, u8),
                ErrorView,
            >((case_id@, credit as nat, profile)),
            Err(error) => ready_parse(payload@) == Err::<(Seq<char>, nat, u8), ErrorView>(error@),
        },
{
    if payload.len() < 7 {
        return Err(protocol("truncated URMA READY payload"));
    }
    let length: usize = read_u16(payload, 0) as usize;
    if payload.len() != length + 7 {
        return Err(protocol("invalid URMA READY payload length"));
    }
    let case_id = match text_from_utf8(vstd::slice::slice_subrange(payload, 2, 2 + length)) {
        Some(case_id) => case_id,
        None => {
            return Err(protocol("URMA READY case_id is not UTF-8"));
        },
    };
    proof {
        vstd::utf8::encode_utf8_decode_utf8(case_id@);
    }
    let credit: u32 = read_u32(payload, 2 + length);
    if credit == 0 {
        return Err(protocol("URMA READY advertised zero receive credit"));
    }
    Ok((case_id, credit as usize, payload[payload.len() - 1]))
}

/// Reading READY gives back the case, the credit and the profile that it was written with, where
/// there is credit.
pub proof fn ready_round_trip(case_id: Seq<char>, credit: nat, profile: u8)
    requires
        text::utf8(case_id).len() <= u16::MAX,
        0 < credit <= u32::MAX,
    ensures
        ready_parse(ready_wire(case_id, credit, profile)) == Ok::<(Seq<char>, nat, u8), ErrorView>(
            (case_id, credit, profile),
        ),
{
    let payload = ready_wire(case_id, credit, profile);
    let case = text::utf8(case_id);
    bytes::lemma_be_bounds();
    bytes::lemma_be(case.len(), 2);
    bytes::lemma_be(credit, 4);
    text::lemma_utf8_properties(case_id);
    vstd::utf8::encode_utf8_decode_utf8(case_id);
    assert(payload.subrange(0, 2) =~= bytes::be(case.len(), 2));
    let length = case.len() as int;
    assert(payload.subrange(2, 2 + length) =~= case);
    assert(payload.subrange(2 + length, 6 + length) =~= bytes::be(credit, 4));
}

/// Why READY does not fit this run, if it does not.
pub open spec fn ready_error(
    payload: Seq<u8>,
    case_id: Seq<char>,
    expected_credit: nat,
    profile: UrmaBenchmarkProfile,
) -> Option<ErrorView> {
    match ready_parse(payload) {
        Err(error) => Some(error),
        Ok((received, credit, received_profile)) => if received != case_id || credit
            != expected_credit || received_profile != profile.wire() {
            Some(
                ErrorView::Protocol(
                    "URMA READY mismatch: case_id="@ + text::quoted(received) + ", credit="@
                        + text::decimal(credit) + ", profile="@ + text::decimal(
                        received_profile as nat,
                    ) + ", expected case_id="@ + text::quoted(case_id) + ", credit="@
                        + text::decimal(expected_credit) + ", profile="@ + text::decimal(
                        profile.wire() as nat,
                    ),
                ),
            )
        } else {
            None
        },
    }
}

/// The credit that READY announces, where it fits this run.
pub fn expect_ready(
    payload: &[u8],
    case_id: &str,
    expected_credit: usize,
    profile: UrmaBenchmarkProfile,
) -> (checked: Result<usize>)
    ensures
        match checked {
            Ok(credit) => {
                &&& ready_error(payload@, case_id@, expected_credit as nat, profile) is None
                &&& credit == expected_credit
            },
            Err(error) => ready_error(payload@, case_id@, expected_credit as nat, profile) == Some(
                error@,
            ),
        },
{
    let (received, credit, received_profile) = match decode_ready(payload) {
        Ok(ready) => ready,
        Err(error) => {
            return Err(error);
        },
    };
    if !same_text(received.as_str(), case_id) || credit != expected_credit || received_profile
        != profile.wire_id() {
        let mut detail = "URMA READY mismatch: case_id=".to_owned();
        detail.append(quote(received.as_str()).as_str());
        detail.append(", credit=");
        push_decimal(&mut detail, credit as u64);
        detail.append(", profile=");
        push_decimal(&mut detail, received_profile as u64);
        detail.append(", expected case_id=");
        detail.append(quote(case_id).as_str());
        detail.append(", credit=");
        push_decimal(&mut detail, expected_credit as u64);
        detail.append(", profile=");
        push_decimal(&mut detail, profile.wire_id() as u64);
        return Err(Error::Protocol(detail));
    }
    Ok(credit)
}

/// The payload of CREDIT.
pub fn encode_credit(count: usize) -> (payload: Result<Vec<u8>>)
    ensures
        match payload {
            Ok(payload) => 0 < count <= u32::MAX && payload@ == bytes::be(count as nat, 4),
            Err(error) => if count > u32::MAX {
                error@ == ErrorView::InvalidConfiguration("remote credit update exceeds u32"@)
            } else {
                &&& count == 0
                &&& error@ == ErrorView::InvalidConfiguration(
                    "remote credit update must be non-zero"@,
                )
            },
        },
{
    if count as u64 > u32::MAX as u64 {
        return Err(invalid("remote credit update exceeds u32"));
    }
    if count == 0 {
        return Err(invalid("remote credit update must be non-zero"));
    }
    let mut payload: Vec<u8> = Vec::new();
    push_u32(&mut payload, count as u32);
    assert(payload@ =~= bytes::be(count as nat, 4));
    Ok(payload)
}

/// The receives that CREDIT announces, or why it is refused.
pub open spec fn credit_parse(payload: Seq<u8>) -> core::result::Result<nat, ErrorView> {
    if payload.len() != 4 {
        Err(ErrorView::Protocol("invalid URMA CREDIT payload length"@))
    } else if bytes::be_value(payload) == 0 {
        Err(ErrorView::Protocol("zero URMA CREDIT update"@))
    } else {
        Ok(bytes::be_value(payload))
    }
}

/// The receives that CREDIT announces.
pub fn decode_credit(payload: &[u8]) -> (decoded: Result<usize>)
    ensures
        match decoded {
            Ok(count) => credit_parse(payload@) == Ok::<nat, ErrorView>(count as nat),
            Err(error) => credit_parse(payload@) == Err::<nat, ErrorView>(error@),
        },
{
    if payload.len() != 4 {
        return Err(protocol("invalid URMA CREDIT payload length"));
    }
    let count: u32 = read_u32(payload, 0);
    assert(payload@.subrange(0, 4) =~= payload@);
    if count == 0 {
        return Err(protocol("zero URMA CREDIT update"));
    }
    Ok(count as usize)
}

/// Reading CREDIT gives back the count that it was written with.
pub proof fn credit_round_trip(count: nat)
    requires
        0 < count <= u32::MAX,
    ensures
        credit_parse(bytes::be(count, 4)) == Ok::<nat, ErrorView>(count),
{
    bytes::lemma_be_bounds();
    bytes::lemma_be(count, 4);
}

/// The credit after an update, and why the update is refused, if it is.
pub open spec fn granted(credit: RemoteCreditView, count: nat) -> (
    RemoteCreditView,
    Option<ErrorView>,
) {
    let credited = RemoteCreditView {
        available: credit.available + count,
        returned: credit.returned + count,
        ..credit
    };
    if credit.grant_error(count) is Some {
        (credit, credit.grant_error(count))
    } else if credit.updates == usize::MAX {
        (credited, Some(ErrorView::Protocol("remote receive credit update overflow"@)))
    } else {
        (RemoteCreditView { updates: credit.updates + 1, ..credited }, None)
    }
}

/// What a CREDIT payload does to the credit.
pub open spec fn credited(credit: RemoteCreditView, payload: Seq<u8>) -> (
    RemoteCreditView,
    Option<ErrorView>,
) {
    match credit_parse(payload) {
        Err(error) => (credit, Some(error)),
        Ok(count) => granted(credit, count),
    }
}

fn take_credit(credit: &mut RemoteReceiveCredit, payload: &[u8]) -> (taken: Result<()>)
    requires
        old(credit)@.wf(),
    ensures
        final(credit)@.wf(),
        final(credit)@ == credited(old(credit)@, payload@).0,
        match taken {
            Ok(()) => credited(old(credit)@, payload@).1 is None,
            Err(error) => credited(old(credit)@, payload@).1 == Some(error@),
        },
{
    match decode_credit(payload) {
        Ok(count) => credit.grant(count),
        Err(error) => Err(error),
    }
}

/// Why a wait for credit is refused, if it is refused.
pub open spec fn wait_error(credit: RemoteCreditView, required: nat) -> Option<ErrorView> {
    if required == 0 || required > credit.initial {
        Some(
            ErrorView::InvalidConfiguration(
                "remote credit batch must be within the initial RQ capacity"@,
            ),
        )
    } else if credit.available < required && credit.waits == usize::MAX {
        Some(ErrorView::Protocol("remote receive credit wait overflow"@))
    } else {
        None
    }
}

/// Whether there is credit for `required` sends already. Where there is not, a wait is counted:
/// control messages then go to [`take_waited_frame`] until there is.
pub fn begin_credit_wait(credit: &mut RemoteReceiveCredit, required: usize) -> (ready: Result<bool>)
    requires
        old(credit)@.wf(),
    ensures
        final(credit)@.wf(),
        match ready {
            Ok(ready) => {
                &&& wait_error(old(credit)@, required as nat) is None
                &&& ready == (old(credit)@.available >= required)
                &&& final(credit)@ == if ready {
                    old(credit)@
                } else {
                    RemoteCreditView { waits: old(credit)@.waits + 1, ..old(credit)@ }
                }
            },
            Err(error) => {
                &&& wait_error(old(credit)@, required as nat) == Some(error@)
                &&& final(credit)@ == old(credit)@
            },
        },
{
    if required == 0 || required > credit.initial() {
        return Err(invalid("remote credit batch must be within the initial RQ capacity"));
    }
    if credit.available() >= required {
        return Ok(true);
    }
    match credit.waited() {
        Ok(()) => Ok(false),
        Err(error) => Err(error),
    }
}

/// What a control message does to the credit that is waited for.
pub open spec fn waited_frame(credit: RemoteCreditView, kind: u16, payload: Seq<u8>) -> (
    RemoteCreditView,
    Option<ErrorView>,
) {
    if kind != 4 {
        (
            credit,
            Some(
                ErrorView::Protocol(
                    "received control kind "@ + text::decimal(kind as nat)
                        + " while waiting for remote RX credit"@,
                ),
            ),
        )
    } else {
        credited(credit, payload)
    }
}

/// Takes in a control message while credit is waited for, and says whether there is enough now.
pub fn take_waited_frame(
    credit: &mut RemoteReceiveCredit,
    required: usize,
    kind: u16,
    payload: &[u8],
) -> (ready: Result<bool>)
    requires
        old(credit)@.wf(),
    ensures
        final(credit)@.wf(),
        final(credit)@ == waited_frame(old(credit)@, kind, payload@).0,
        match ready {
            Ok(ready) => {
                &&& waited_frame(old(credit)@, kind, payload@).1 is None
                &&& ready == (final(credit)@.available >= required)
            },
            Err(error) => waited_frame(old(credit)@, kind, payload@).1 == Some(error@),
        },
{
    if kind != CREDIT {
        return Err(
            Error::Protocol(
                with_number(
                    "received control kind ",
                    kind as u64,
                    " while waiting for remote RX credit",
                ),
            ),
        );
    }
    match take_credit(credit, payload) {
        Ok(()) => Ok(credit.available() >= required),
        Err(error) => Err(error),
    }
}

/// What a control message does while DONE is waited for.
pub open spec fn done_frame(credit: RemoteCreditView, kind: u16, payload: Seq<u8>) -> (
    RemoteCreditView,
    core::result::Result<bool, ErrorView>,
) {
    if kind == 4 {
        let (after, refused) = credited(credit, payload);
        (
            after,
            match refused {
                Some(error) => Err(error),
                None => Ok(false),
            },
        )
    } else if kind == 3 {
        (credit, Ok(true))
    } else {
        (
            credit,
            Err(
                ErrorView::Protocol(
                    "received control kind "@ + text::decimal(kind as nat)
                        + " while waiting for DONE"@,
                ),
            ),
        )
    }
}

/// Takes in a control message while DONE is waited for, and says whether it is DONE.
pub fn take_done_frame(credit: &mut RemoteReceiveCredit, kind: u16, payload: &[u8]) -> (done: Result<
    bool,
>)
    requires
        old(credit)@.wf(),
    ensures
        final(credit)@.wf(),
        final(credit)@ == done_frame(old(credit)@, kind, payload@).0,
        match done {
            Ok(done) => done_frame(old(credit)@, kind, payload@).1 == Ok::<bool, ErrorView>(done),
            Err(error) => done_frame(old(credit)@, kind, payload@).1 == Err::<bool, ErrorView>(
                error@,
            ),
        },
{
    if kind == CREDIT {
        match take_credit(credit, payload) {
            Ok(()) => Ok(false),
            Err(error) => Err(error),
        }
    } else if kind == DONE {
        Ok(true)
    } else {
        Err(
            Error::Protocol(
                with_number("received control kind ", kind as u64, " while waiting for DONE"),
            ),
        )
    }
}

/// Polling counters of the payload phase.
#[derive(Clone, Copy, Debug, Eq, PartialEq, Structural)]
pub struct PayloadPollStats {
    pub poll_calls: u64,
    pub empty_polls: u64,
    pub send_jfc_poll_calls: u64,
    pub send_jfc_empty_polls: u64,
    pub recv_jfc_poll_calls: u64,
    pub recv_jfc_empty_polls: u64,
}

/// The difference of two counters, zero where it would be negative.
pub open spec fn counted_since(now: u64, start: u64) -> u64 {
    if now >= start {
        (now - start) as u64
    } else {
        0
    }
}

impl PayloadPollStats {
    /// The counters of a connection.
    pub fn from_completion(stats: CompletionStats) -> (poll: Self)
        ensures
            poll == (PayloadPollStats {
                poll_calls: stats.poll_calls,
                empty_polls: stats.empty_polls,
                send_jfc_poll_calls: stats.send_jfc_poll_calls,
                send_jfc_empty_polls: stats.send_jfc_empty_polls,
                recv_jfc_poll_calls: stats.recv_jfc_poll_calls,
                recv_jfc_empty_polls: stats.recv_jfc_empty_polls,
            }),
    {
        PayloadPollStats {
            poll_calls: stats.poll_calls,
            empty_polls: stats.empty_polls,
            send_jfc_poll_calls: stats.send_jfc_poll_calls,
            send_jfc_empty_polls: stats.send_jfc_empty_polls,
            recv_jfc_poll_calls: stats.recv_jfc_poll_calls,
            recv_jfc_empty_polls: stats.recv_jfc_empty_polls,
        }
    }

    /// What was counted since `start`.
    pub fn elapsed_since(self, start: Self) -> (elapsed: Self)
        ensures
            elapsed == (PayloadPollStats {
                poll_calls: counted_since(self.poll_calls, start.poll_calls),
                empty_polls: counted_since(self.empty_polls, start.empty_polls),
                send_jfc_poll_calls: counted_since(
                    self.send_jfc_poll_calls,
                    start.send_jfc_poll_calls,
                ),
                send_jfc_empty_polls: counted_since(
                    self.send_jfc_empty_polls,
                    start.send_jfc_empty_polls,
                ),
                recv_jfc_poll_calls: counted_since(
                    self.recv_jfc_poll_calls,
                    start.recv_jfc_poll_calls,
                ),
                recv_jfc_empty_polls: counted_since(
                    self.recv_jfc_empty_polls,
                    start.recv_jfc_empty_polls,
                ),
            }),
    {
        PayloadPollStats {
            poll_calls: self.poll_calls.saturating_sub(start.poll_calls),
            empty_polls: self.empty_polls.saturating_sub(start.empty_polls),
            send_jfc_poll_calls: self.send_jfc_poll_calls.saturating_sub(start.send_jfc_poll_calls),
            send_jfc_empty_polls: self.send_jfc_empty_polls.saturating_sub(
                start.send_jfc_empty_polls,
            ),
            recv_jfc_poll_calls: self.recv_jfc_poll_calls.saturating_sub(start.recv_jfc_poll_calls),
            recv_jfc_empty_polls: self.recv_jfc_empty_polls.saturating_sub(
                start.recv_jfc_empty_polls,
            ),
        }
    }
}

/// What a child reports at the end of a run.
#[derive(Debug, Eq, PartialEq)]
pub struct Done {
    pub case_id: String,
    pub integrity: IntegrityResult,
    pub elapsed_ns: u64,
    pub child_cpu: CpuUsage,
    pub completion: CompletionStats,
    pub payload_poll: PayloadPollStats,
    pub bytes_received: u64,
}

/// A [`Done`] with its case as a character sequence.
pub struct DoneView {
    pub case_id: Seq<char>,
    pub integrity: IntegrityResult,
    pub elapsed_ns: u64,
    pub child_cpu: CpuUsage,
    pub completion: CompletionStats,
    pub payload_poll: PayloadPollStats,
    pub bytes_received: u64,
}

impl View for Done {
    type V = DoneView;

    open spec fn view(&self) -> DoneView {
        DoneView {
            case_id: self.case_id@,
            integrity: self.integrity,
            elapsed_ns: self.elapsed_ns,
            child_cpu: self.child_cpu,
            completion: self.completion,
            payload_poll: self.payload_poll,
            bytes_received: self.bytes_received,
        }
    }
}

/// The numbers as eight bytes each.
pub open spec fn packed(words: Seq<u64>) -> Seq<u8>
    decreases words.len(),
{
    if words.len() == 0 {
        Seq::empty()
    } else {
        packed(words.drop_last()) + bytes::be(words.last() as nat, 8)
    }
}

/// The numbers that follow each other in eight bytes each.
pub open spec fn unpacked(input: Seq<u8>, offset: int, count: nat) -> Seq<u64> {
    Seq::new(
        count,
        |i: int| bytes::be_value(input.subrange(offset + 8 * i, offset + 8 * i + 8)) as u64,
    )
}

impl DoneView {
    /// The numbers of the report, as they stand on the wire.
    pub open spec fn words(self) -> Seq<u64> {
        seq![
            self.integrity.expected_bytes,
            self.integrity.actual_bytes,
            self.elapsed_ns,
            self.child_cpu.user_us,
            self.child_cpu.system_us,
            self.completion.send_post,
            self.completion.recv_post,
            self.completion.send_post_calls,
            self.completion.recv_post_calls,
            self.completion.send_post_list_max,
            self.completion.recv_post_list_max,
            self.completion.send_cqe,
            self.completion.send_retired,
            self.completion.recv_cqe,
            self.completion.cqe_error,
            self.completion.poll_calls,
            self.completion.empty_polls,
            self.completion.send_jfc_poll_calls,
            self.completion.send_jfc_empty_polls,
            self.completion.recv_jfc_poll_calls,
            self.completion.recv_jfc_empty_polls,
            self.completion.yield_count,
            self.completion.sleep_count,
            self.completion.backoff_sleep_ns,
            self.completion.jfc_rearm_count,
            self.completion.event_wait_count,
            self.completion.event_wakeup_count,
            self.completion.event_timeout_count,
            self.completion.spurious_wakeup_count,
            self.completion.event_wait_ns,
            self.completion.max_event_wait_ns,
            self.completion.max_empty_streak,
            self.completion.nonempty_polls,
            self.completion.completion_batch_total,
            self.completion.max_completion_poll_gap_ns,
            self.completion.max_outstanding_send,
            self.payload_poll.poll_calls,
            self.payload_poll.empty_polls,
            self.payload_poll.send_jfc_poll_calls,
            self.payload_poll.send_jfc_empty_polls,
            self.payload_poll.recv_jfc_poll_calls,
            self.payload_poll.recv_jfc_empty_polls,
            self.bytes_received,
        ]
    }

    /// The payload of DONE.
    pub open spec fn wire(self) -> Seq<u8> {
        bytes::be(text::utf8(self.case_id).len(), 2) + text::utf8(self.case_id) + packed(
            self.words(),
        ) + bytes::be(self.integrity.expected_crc32 as nat, 4) + bytes::be(
            self.integrity.actual_crc32 as nat,
            4,
        )
    }

    /// The report with the given numbers.
    pub open spec fn from_words(
        case_id: Seq<char>,
        words: Seq<u64>,
        expected_crc32: u32,
        actual_crc32: u32,
    ) -> Self {
        DoneView {
            case_id,
            integrity: IntegrityResult::judged(words[0], words[1], expected_crc32, actual_crc32),
            elapsed_ns: words[2],
            child_cpu: CpuUsage { user_us: words[3], system_us: words[4] },
            completion: CompletionStats {
                send_post: words[5],
                recv_post: words[6],
                send_post_calls: words[7],
                recv_post_calls: words[8],
                send_post_list_max: words[9],
                recv_post_list_max: words[10],
                send_cqe: words[11],
                send_retired: words[12],
                recv_cqe: words[13],
                cqe_error: words[14],
                poll_calls: words[15],
                empty_polls: words[16],
                send_jfc_poll_calls: words[17],
                send_jfc_empty_polls: words[18],
                recv_jfc_poll_calls: words[19],
                recv_jfc_empty_polls: words[20],
                yield_count: words[21],
                sleep_count: words[22],
                backoff_sleep_ns: words[23],
                jfc_rearm_count: words[24],
                event_wait_count: words[25],
                event_wakeup_count: words[26],
                event_timeout_count: words[27],
                spurious_wakeup_count: words[28],
                event_wait_ns: words[29],
                max_event_wait_ns: words[30],
                max_empty_streak: words[31],
                nonempty_polls: words[32],
                completion_batch_total: words[33],
                max_completion_poll_gap_ns: words[34],
                max_outstanding_send: words[35],
            },
            payload_poll: PayloadPollStats {
                poll_calls: words[36],
                empty_polls: words[37],
                send_jfc_poll_calls: words[38],
                send_jfc_empty_polls: words[39],
                recv_jfc_poll_calls: words[40],
                recv_jfc_empty_polls: words[41],
            },
            bytes_received: words[42],
        }
    }

    /// The report that a DONE payload holds, or why it is refused.
    pub open spec fn parse(input: Seq<u8>) -> core::result::Result<Self, ErrorView> {
        let length = bytes::be_value(input.subrange(0, 2)) as int;
        let case = input.subrange(2, 2 + length);
        if input.len() < 2 {
            Err(ErrorView::Protocol("truncated URMA Done"@))
        } else if input.len() != length + 354 {
            Err(ErrorView::Protocol("invalid URMA Done length"@))
        } else if !vstd::utf8::valid_utf8(case) {
            Err(ErrorView::Protocol("URMA Done case_id is not UTF-8"@))
        } else {
            Ok(
                DoneView::from_words(
                    vstd::utf8::decode_utf8(case),
                    unpacked(input, 2 + length, 43),
                    bytes::be_value(input.subrange(346 + length, 350 + length)) as u32,
                    bytes::be_value(input.subrange(350 + length, 354 + length)) as u32,
                ),
            )
        }
    }
}

fn done_words(done: &Done) -> (words: Vec<u64>)
    ensures
        words@ == done@.words(),
{
    let mut words: Vec<u64> = Vec::new();
    words.push(done.integrity.expected_bytes);
    words.push(done.integrity.actual_bytes);
    words.push(done.elapsed_ns);
    words.push(done.child_cpu.user_us);
    words.push(done.child_cpu.system_us);
    words.push(done.completion.send_post);
    words.push(done.completion.recv_post);
    words.push(done.completion.send_post_calls);
    words.push(done.completion.recv_post_calls);
    words.push(done.completion.send_post_list_max);
    words.push(done.completion.recv_post_list_max);
    words.push(done.completion.send_cqe);
    words.push(done.completion.send_retired);
    words.push(done.completion.recv_cqe);
    words.push(done.completion.cqe_error);
    words.push(done.completion.poll_calls);
    words.push(done.completion.empty_polls);
    words.push(done.completion.send_jfc_poll_calls);
    words.push(done.completion.send_jfc_empty_polls);
    words.push(done.completion.recv_jfc_poll_calls);
    words.push(done.completion.recv_jfc_empty_polls);
    words.push(done.completion.yield_count);
    words.push(done.completion.sleep_count);
    words.push(done.completion.backoff_sleep_ns);
    words.push(done.completion.jfc_rearm_count);
    words.push(done.completion.event_wait_count);
    words.push(done.completion.event_wakeup_count);
    words.push(done.completion.event_timeout_count);
    words.push(done.completion.spurious_wakeup_count);
    words.push(done.completion.event_wait_ns);
    words.push(done.completion.max_event_wait_ns);
    words.push(done.completion.max_empty_streak);
    words.push(done.completion.nonempty_polls);
    words.push(done.completion.completion_batch_total);
    words.push(done.completion.max_completion_poll_gap_ns);
    words.push(done.completion.max_outstanding_send);
    words.push(done.payload_poll.poll_calls);
    words.push(done.payload_poll.empty_polls);
    words.push(done.payload_poll.send_jfc_poll_calls);
    words.push(done.payload_poll.send_jfc_empty_polls);
    words.push(done.payload_poll.recv_jfc_poll_calls);
    words.push(done.payload_poll.recv_jfc_empty_polls);
    words.push(done.bytes_received);
    assert(words@ =~= done@.words());
    words
}

/// The payload of DONE.
pub fn encode_done(done: &Done) -> (payload: Result<Vec<u8>>)
    ensures
        match payload {
            Ok(payload) => {
                &&& text::utf8(done.case_id@).len() <= u16::MAX
                &&& payload@ == done@.wire()
            },
            Err(error) => {
                &&& text::utf8(done.case_id@).len() > u16::MAX
                &&& error@ == ErrorView::InvalidConfiguration("case_id too long"@)
            },
        },
{
    let case = done.case_id.as_str().as_bytes();
    if case.len() > u16::MAX as usize {
        return Err(invalid("case_id too long"));
    }
    let mut output: Vec<u8> = Vec::new();
    push_u16(&mut output, case.len() as u16);
    push_bytes(&mut output, case);
    let ghost head = output@;
    let words = done_words(done);
    let mut index: usize = 0;
    assert(head + packed(words@.take(0)) =~= head);
    while index < words.len()
        invariant
            index <= words@.len(),
            output@ == head + packed(words@.take(index as int)),
        decreases words@.len() - index,
    {
        proof {
            assert(words@.take(index + 1).drop_last() =~= words@.take(index as int));
        }
        push_u64(&mut output, words[index]);
        index += 1;
        assert(output@ =~= head + packed(words@.take(index as int)));
    }
    assert(words@.take(words@.len() as int) =~= words@);
    push_u32(&mut output, done.integrity.expected_crc32);
    push_u32(&mut output, done.integrity.actual_crc32);
    assert(output@ =~= done@.wire());
    Ok(output)
}

fn read_words(input: &[u8], offset: usize, count: usize) -> (words: Vec<u64>)
    requires
        offset + 8 * count <= input@.len(),
    ensures
        words@ == unpacked(input@, offset as int, count as nat),
{
    let size: usize = input.len();
    let mut words: Vec<u64> = Vec::new();
    let mut index: usize = 0;
    while index < count
        invariant
            size == input@.len(),
            offset + 8 * count <= input@.len(),
            index <= count,
            words@.len() == index,
            forall|i: int|
                0 <= i < index ==> #[trigger] words@[i] == unpacked(
                    input@,
                    offset as int,
                    count as nat,
                )[i],
        decreases count - index,
    {
        let word: u64 = read_u64(input, offset + 8 * index);
        words.push(word);
        index += 1;
    }
    assert(words@ =~= unpacked(input@, offset as int, count as nat));
    words
}

/// The report that a DONE payload holds.
pub fn decode_done(input: &[u8]) -> (decoded: Result<Done>)
    ensures
        match decoded {
            Ok(done) => DoneView::parse(input@) == Ok::<DoneView, ErrorView>(done@),
            Err(error) => DoneView::parse(input@) == Err::<DoneView, ErrorView>(error@),
        },
{
    if input.len() < 2 {
        return Err(protocol("truncated URMA Done"));
    }
    let length: usize = read_u16(input, 0) as usize;
    if input.len() != length + 354 {
        return Err(protocol("invalid URMA Done length"));
    }
    let case_id = match text_from_utf8(vstd::slice::slice_subrange(input, 2, 2 + length)) {
        Some(case_id) => case_id,
        None => {
            return Err(protocol("URMA Done case_id is not UTF-8"));
        },
    };
    proof {
        vstd::utf8::encode_utf8_decode_utf8(case_id@);
    }
    let words = read_words(input, 2 + length, 43);
    let expected_crc32: u32 = read_u32(input, 346 + length);
    let actual_crc32: u32 = read_u32(input, 350 + length);
    Ok(
        Done {
            case_id,
            integrity: IntegrityResult::new(words[0], words[1], expected_crc32, actual_crc32),
            elapsed_ns: words[2],
            child_cpu: CpuUsage { user_us: words[3], system_us: words[4] },
            completion: CompletionStats {
                send_post: words[5],
                recv_post: words[6],
                send_post_calls: words[7],
                recv_post_calls: words[8],
                send_post_list_max: words[9],
                recv_post_list_max: words[10],
                send_cqe: words[11],
                send_retired: words[12],
                recv_cqe: words[13],
                cqe_error: words[14],
                poll_calls: words[15],
                empty_polls: words[16],
                send_jfc_poll_calls: words[17],
                send_jfc_empty_polls: words[18],
                recv_jfc_poll_calls: words[19],
                recv_jfc_empty_polls: words[20],
                yield_count: words[21],
                sleep_count: words[22],
                backoff_sleep_ns: words[23],
                jfc_rearm_count: words[24],
                event_wait_count: words[25],
                event_wakeup_count: words[26],
                event_timeout_count: words[27],
                spurious_wakeup_count: words[28],
                event_wait_ns: words[29],
                max_event_wait_ns: words[30],
                max_empty_streak: words[31],
                nonempty_polls: words[32],
                completion_batch_total: words[33],
                max_completion_poll_gap_ns: words[34],
                max_outstanding_send: words[35],
            },
            payload_poll: PayloadPollStats {
                poll_calls: words[36],
                empty_polls: words[37],
                send_jfc_poll_calls: words[38],
                send_jfc_empty_polls: words[39],
                recv_jfc_poll_calls: words[40],
                recv_jfc_empty_polls: words[41],
            },
            bytes_received: words[42],
        },
    )
}

pub proof fn lemma_packed(words: Seq<u64>)
    ensures
        packed(words).len() == 8 * words.len(),
        forall|i: int|
            0 <= i < words.len() ==> #[trigger] packed(words).subrange(8 * i, 8 * i + 8)
                == bytes::be(words[i] as nat, 8),
    decreases words.len(),
{
    if words.len() > 0 {
        let fewer = words.drop_last();
        lemma_packed(fewer);
        bytes::lemma_be(words.last() as nat, 8);
        assert forall|i: int| 0 <= i < words.len() implies #[trigger] packed(words).subrange(
            8 * i,
            8 * i + 8,
        ) == bytes::be(words[i] as nat, 8) by {
            if i < fewer.len() {
                assert(packed(words).subrange(8 * i, 8 * i + 8) =~= packed(fewer).subrange(
                    8 * i,
                    8 * i + 8,
                ));
            } else {
                assert(packed(words).subrange(8 * i, 8 * i + 8) =~= bytes::be(
                    words[i] as nat,
                    8,
                ));
            }
        }
    }
}

/// Reading DONE gives back the report that it was written with, where its judgement is the one that
/// follows from its numbers.
pub proof fn done_round_trip(done: DoneView)
    requires
        text::utf8(done.case_id).len() <= u16::MAX,
        done.integrity == IntegrityResult::judged(
            done.integrity.expected_bytes,
            done.integrity.actual_bytes,
            done.integrity.expected_crc32,
            done.integrity.actual_crc32,
        ),
    ensures
        DoneView::parse(done.wire()) == Ok::<DoneView, ErrorView>(done),
{
    let wire = done.wire();
    let case = text::utf8(done.case_id);
    let length = case.len() as int;
    let words = done.words();
    bytes::lemma_be_bounds();
    bytes::lemma_be(case.len(), 2);
    bytes::lemma_be(done.integrity.expected_crc32 as nat, 4);
    bytes::lemma_be(done.integrity.actual_crc32 as nat, 4);
    lemma_packed(words);
    text::lemma_utf8_properties(done.case_id);
    vstd::utf8::encode_utf8_decode_utf8(done.case_id);
    assert(wire.subrange(0, 2) =~= bytes::be(case.len(), 2));
    assert(wire.subrange(2, 2 + length) =~= case);
    assert(wire.subrange(346 + length, 350 + length) =~= bytes::be(
        done.integrity.expected_crc32 as nat,
        4,
    ));
    assert(wire.subrange(350 + length, 354 + length) =~= bytes::be(
        done.integrity.actual_crc32 as nat,
        4,
    ));
    let read = unpacked(wire, 2 + length, 43);
    assert forall|i: int| 0 <= i < 43 implies #[trigger] read[i] == words[i] by {
        assert(wire.subrange(2 + length + 8 * i, 2 + length + 8 * i + 8) =~= packed(
            words,
        ).subrange(8 * i, 8 * i + 8));
        bytes::lemma_be(words[i] as nat, 8);
    }
    assert(read =~= words);
}

} // verus!
