//! The control frames of a TCP run.

use vstd::prelude::*;

use crate::benchmark::{
    BenchmarkCase, BenchmarkScenario, BenchmarkTransport, CaseView, CpuUsage, FileCompletionPolicy,
    IntegrityResult, TimingMode,
};
use crate::bytes;
use crate::bytes::{push_bytes, push_u16, push_u32, push_u64, read_u16, read_u32, read_u64};
use crate::error::{protocol, Error, ErrorView, Result};
use crate::text;
use crate::text::{same_text, text_from_utf8, with_hex, with_number};

verus! {

pub const CONTROL_MAGIC: u32 = 0x4254_4350;

pub const CONTROL_VERSION: u16 = 1;

pub const CONTROL_HEADER_LEN: usize = 12;

pub const MAX_CONTROL_PAYLOAD: usize = 4096;

/// What a control frame is.
#[derive(Clone, Copy, Debug, Eq, PartialEq, Structural)]
pub enum FrameType {
    Request,
    Metadata,
    Ready,
    Start,
    Done,
    Error,
}

impl FrameType {
    /// The number that stands for the kind of frame on the wire.
    pub open spec fn number(self) -> u16 {
        match self {
            FrameType::Request => 1,
            FrameType::Metadata => 2,
            FrameType::Ready => 3,
            FrameType::Start => 4,
            FrameType::Done => 5,
            FrameType::Error => 6,
        }
    }

    /// The name of the kind of frame.
    pub open spec fn name(self) -> Seq<char> {
        match self {
            FrameType::Request => "Request"@,
            FrameType::Metadata => "Metadata"@,
            FrameType::Ready => "Ready"@,
            FrameType::Start => "Start"@,
            FrameType::Done => "Done"@,
            FrameType::Error => "Error"@,
        }
    }

    /// The kind of frame that a number stands for, or why it is refused.
    pub open spec fn of(value: u16) -> core::result::Result<Self, ErrorView> {
        if value == 1 {
            Ok(FrameType::Request)
        } else if value == 2 {
            Ok(FrameType::Metadata)
        } else if value == 3 {
            Ok(FrameType::Ready)
        } else if value == 4 {
            Ok(FrameType::Start)
        } else if value == 5 {
            Ok(FrameType::Done)
        } else if value == 6 {
            Ok(FrameType::Error)
        } else {
            Err(
                ErrorView::Protocol(
                    "unknown TCP control frame type "@ + text::decimal(value as nat) + ""@,
                ),
            )
        }
    }

    /// The number that stands for the kind of frame on the wire.
    pub fn wire_value(self) -> (value: u16)
        ensures
            value == self.number(),
    {
        match self {
            FrameType::Request => 1,
            FrameType::Metadata => 2,
            FrameType::Ready => 3,
            FrameType::Start => 4,
            FrameType::Done => 5,
            FrameType::Error => 6,
        }
    }

    /// The name of the kind of frame.
    pub fn label(self) -> (label: &'static str)
        ensures
            label@ == self.name(),
    {
        match self {
            FrameType::Request => "Request",
            FrameType::Metadata => "Metadata",
            FrameType::Ready => "Ready",
            FrameType::Start => "Start",
            FrameType::Done => "Done",
            FrameType::Error => "Error",
        }
    }

    /// The kind of frame that a number stands for.
    pub fn from_wire(value: u16) -> (decoded: Result<Self>)
        ensures
            match decoded {
                Ok(decoded) => Self::of(value) == Ok::<Self, ErrorView>(decoded),
                Err(error) => Self::of(value) == Err::<Self, ErrorView>(error@),
            },
    {
        match value {
            1 => Ok(FrameType::Request),
            2 => Ok(FrameType::Metadata),
            3 => Ok(FrameType::Ready),
            4 => Ok(FrameType::Start),
            5 => Ok(FrameType::Done),
            6 => Ok(FrameType::Error),
            _ => Err(
                Error::Protocol(with_number("unknown TCP control frame type ", value as u64, "")),
            ),
        }
    }
}

/// The bytes of a control frame.
pub open spec fn frame_wire(kind: FrameType, payload: Seq<u8>) -> Seq<u8> {
    bytes::be(0x4254_4350, 4) + bytes::be(1, 2) + bytes::be(kind.number() as nat, 2) + bytes::be(
        payload.len(),
        4,
    ) + payload
}

/// The kind and the payload length of a control frame, or why its header is refused.
pub open spec fn header_parse(header: Seq<u8>) -> core::result::Result<(FrameType, nat), ErrorView> {
    let magic = bytes::be_value(header.subrange(0, 4));
    let version = bytes::be_value(header.subrange(4, 6));
    let length = bytes::be_value(header.subrange(8, 12));
    if magic != 0x4254_4350 {
        Err(ErrorView::Protocol("invalid TCP control magic 0x"@ + text::hex(magic, 8) + ""@))
    } else if version != 1 {
        Err(
            ErrorView::Protocol(
                "unsupported TCP control version "@ + text::decimal(version) + ""@,
            ),
        )
    } else {
        match FrameType::of(bytes::be_value(header.subrange(6, 8)) as u16) {
            Err(error) => Err(error),
            Ok(kind) => if length > 4096 {
                Err(
                    ErrorView::Protocol(
                        "TCP control payload length "@ + text::decimal(length) + " exceeds 4096"@,
                    ),
                )
            } else {
                Ok((kind, length))
            },
        }
    }
}

/// The bytes of a control frame.
pub fn encode_frame(kind: FrameType, payload: &[u8]) -> (frame: Result<Vec<u8>>)
    ensures
        match frame {
            Ok(frame) => payload@.len() <= 4096 && frame@ == frame_wire(kind, payload@),
            Err(error) => {
                &&& payload@.len() > 4096
                &&& error@ == ErrorView::Protocol("TCP control payload is too large"@)
            },
        },
{
    if payload.len() > MAX_CONTROL_PAYLOAD {
        return Err(protocol("TCP control payload is too large"));
    }
    let mut frame: Vec<u8> = Vec::new();
    push_u32(&mut frame, CONTROL_MAGIC);
    push_u16(&mut frame, CONTROL_VERSION);
    push_u16(&mut frame, kind.wire_value());
    push_u32(&mut frame, payload.len() as u32);
    push_bytes(&mut frame, payload);
    assert(frame@ =~= frame_wire(kind, payload@));
    Ok(frame)
}

/// The kind and the payload length that a header announces.
pub fn parse_header(header: &[u8]) -> (parsed: Result<(FrameType, usize)>)
    requires
        header@.len() == 12,
    ensures
        match parsed {
            Ok((kind, length)) => header_parse(header@) == Ok::<(FrameType, nat), ErrorView>(
                (kind, length as nat),
            ),
            Err(error) => header_parse(header@) == Err::<(FrameType, nat), ErrorView>(error@),
        },
{
    let magic: u32 = read_u32(header, 0);
    if magic != CONTROL_MAGIC {
        return Err(Error::Protocol(with_hex("invalid TCP control magic 0x", magic as u64, 8, "")));
    }
    let version: u16 = read_u16(header, 4);
    if version != CONTROL_VERSION {
        return Err(
            Error::Protocol(with_number("unsupported TCP control version ", version as u64, "")),
        );
    }
    let kind = match FrameType::from_wire(read_u16(header, 6)) {
        Ok(kind) => kind,
        Err(error) => {
            return Err(error);
        },
    };
    let length: u32 = read_u32(header, 8);
    if length > 4096 {
        return Err(
            Error::Protocol(
                with_number("TCP control payload length ", length as u64, " exceeds 4096"),
            ),
        );
    }
    Ok((kind, length as usize))
}

/// Reading a frame gives back the kind and the payload that it was written with.
pub proof fn tcp_frame_round_trip(kind: FrameType, payload: Seq<u8>)
    requires
        payload.len() <= 4096,
    ensures
        ({
            let frame = frame_wire(kind, payload);
            &&& frame.len() == 12 + payload.len()
            &&& header_parse(frame.take(12)) == Ok::<(FrameType, nat), ErrorView>(
                (kind, payload.len()),
            )
            &&& frame.skip(12) == payload
        }),
{
    let frame = frame_wire(kind, payload);
    let header = frame.take(12);
    bytes::lemma_be_bounds();
    bytes::lemma_be(0x4254_4350, 4);
    bytes::lemma_be(1, 2);
    bytes::lemma_be(kind.number() as nat, 2);
    bytes::lemma_be(payload.len(), 4);
    assert(header.subrange(0, 4) =~= bytes::be(0x4254_4350, 4));
    assert(header.subrange(4, 6) =~= bytes::be(1, 2));
    assert(header.subrange(6, 8) =~= bytes::be(kind.number() as nat, 2));
    assert(header.subrange(8, 12) =~= bytes::be(payload.len(), 4));
    assert(frame.skip(12) =~= payload);
}

/// Some bytes of a payload and where they end, or why they cannot be had.
pub open spec fn bytes_at(input: Seq<u8>, at: int, length: int) -> core::result::Result<
    (Seq<u8>, int),
    ErrorView,
> {
    if at + length > usize::MAX {
        Err(ErrorView::Protocol("TCP control cursor overflow"@))
    } else if at + length > input.len() {
        Err(ErrorView::Protocol("truncated TCP control payload"@))
    } else {
        Ok((input.subrange(at, at + length), at + length))
    }
}

/// A byte of a payload and where it ends, or why it cannot be had.
pub open spec fn u8_at(input: Seq<u8>, at: int) -> core::result::Result<(u8, int), ErrorView> {
    match bytes_at(input, at, 1) {
        Err(error) => Err(error),
        Ok((taken, next)) => Ok((taken[0], next)),
    }
}

/// A number of a payload and where it ends, or why it cannot be had.
pub open spec fn u32_at(input: Seq<u8>, at: int) -> core::result::Result<(u32, int), ErrorView> {
    match bytes_at(input, at, 4) {
        Err(error) => Err(error),
        Ok((taken, next)) => Ok((bytes::be_value(taken) as u32, next)),
    }
}

/// A number of a payload and where it ends, or why it cannot be had.
pub open spec fn u64_at(input: Seq<u8>, at: int) -> core::result::Result<(u64, int), ErrorView> {
    match bytes_at(input, at, 8) {
        Err(error) => Err(error),
        Ok((taken, next)) => Ok((bytes::be_value(taken) as u64, next)),
    }
}

/// A truth value of a payload and where it ends, or why it cannot be had.
pub open spec fn bool_at(input: Seq<u8>, at: int) -> core::result::Result<(bool, int), ErrorView> {
    match u8_at(input, at) {
        Err(error) => Err(error),
        Ok((value, next)) => if value == 0 {
            Ok((false, next))
        } else if value == 1 {
            Ok((true, next))
        } else {
            Err(
                ErrorView::Protocol(
                    "invalid TCP control boolean "@ + text::decimal(value as nat) + ""@,
                ),
            )
        },
    }
}

/// A text of a payload and where it ends, or why it cannot be had.
pub open spec fn text_at(input: Seq<u8>, at: int) -> core::result::Result<
    (Seq<char>, int),
    ErrorView,
> {
    match bytes_at(input, at, 2) {
        Err(error) => Err(error),
        Ok((length, start)) => match bytes_at(input, start, bytes::be_value(length) as int) {
            Err(error) => Err(error),
            Ok((value, next)) => if vstd::utf8::valid_utf8(value) {
                Ok((vstd::utf8::decode_utf8(value), next))
            } else {
                Err(ErrorView::Protocol("TCP control string is not UTF-8"@))
            },
        },
    }
}

/// Why a payload is refused that was read up to here, if it is refused.
pub open spec fn ended(input: Seq<u8>, at: int) -> Option<ErrorView> {
    if at == input.len() {
        None
    } else {
        Some(ErrorView::Protocol("TCP control payload has trailing bytes"@))
    }
}

/// A payload that is read from front to back.
pub struct WireCursor<'a> {
    bytes: &'a [u8],
    position: usize,
}

impl<'a> WireCursor<'a> {
    /// The payload.
    pub closed spec fn input(self) -> Seq<u8> {
        self.bytes@
    }

    /// Where the next read starts.
    pub closed spec fn at(self) -> int {
        self.position as int
    }

    /// Nothing read yet.
    pub fn new(bytes: &'a [u8]) -> (cursor: Self)
        ensures
            cursor.input() == bytes@,
            cursor.at() == 0,
    {
        WireCursor { bytes, position: 0 }
    }

    fn take(&mut self, length: usize) -> (taken: Result<&'a [u8]>)
        ensures
            final(self).input() == old(self).input(),
            match taken {
                Ok(taken) => bytes_at(old(self).input(), old(self).at(), length as int) == Ok::<
                    (Seq<u8>, int),
                    ErrorView,
                >((taken@, final(self).at())),
                Err(error) => bytes_at(old(self).input(), old(self).at(), length as int) == Err::<
                    (Seq<u8>, int),
                    ErrorView,
                >(error@),
            },
    {
        let end: usize = match self.position.checked_add(length) {
            Some(end) => end,
            None => {
                return Err(protocol("TCP control cursor overflow"));
            },
        };
        if end > self.bytes.len() {
            return Err(protocol("truncated TCP control payload"));
        }
        let taken = vstd::slice::slice_subrange(self.bytes, self.position, end);
        self.position = end;
        Ok(taken)
    }

    pub fn u8(&mut self) -> (read: Result<u8>)
        ensures
            final(self).input() == old(self).input(),
            match read {
                Ok(value) => u8_at(old(self).input(), old(self).at()) == Ok::<
                    (u8, int),
                    ErrorView,
                >((value, final(self).at())),
                Err(error) => u8_at(old(self).input(), old(self).at()) == Err::<
                    (u8, int),
                    ErrorView,
                >(error@),
            },
    {
        match self.take(1) {
            Ok(taken) => Ok(taken[0]),
            Err(error) => Err(error),
        }
    }

    pub fn u32(&mut self) -> (read: Result<u32>)
        ensures
            final(self).input() == old(self).input(),
            match read {
                Ok(value) => u32_at(old(self).input(), old(self).at()) == Ok::<
                    (u32, int),
                    ErrorView,
                >((value, final(self).at())),
                Err(error) => u32_at(old(self).input(), old(self).at()) == Err::<
                    (u32, int),
                    ErrorView,
                >(error@),
            },
    {
        match self.take(4) {
            Ok(taken) => {
                assert(taken@.subrange(0, 4) =~= taken@);
                Ok(read_u32(taken, 0))
            },
            Err(error) => Err(error),
        }
    }

    pub fn u64(&mut self) -> (read: Result<u64>)
        ensures
            final(self).input() == old(self).input(),
            match read {
                Ok(value) => u64_at(old(self).input(), old(self).at()) == Ok::<
                    (u64, int),
                    ErrorView,
                >((value, final(self).at())),
                Err(error) => u64_at(old(self).input(), old(self).at()) == Err::<
                    (u64, int),
                    ErrorView,
                >(error@),
            },
    {
        match self.take(8) {
            Ok(taken) => {
                assert(taken@.subrange(0, 8) =~= taken@);
                Ok(read_u64(taken, 0))
            },
            Err(error) => Err(error),
        }
    }

    pub fn boolean(&mut self) -> (read: Result<bool>)
        ensures
            final(self).input() == old(self).input(),
            match read {
                Ok(value) => bool_at(old(self).input(), old(self).at()) == Ok::<
                    (bool, int),
                    ErrorView,
                >((value, final(self).at())),
                Err(error) => bool_at(old(self).input(), old(self).at()) == Err::<
                    (bool, int),
                    ErrorView,
                >(error@),
            },
    {
        match self.u8() {
            Ok(value) => match value {
                0 => Ok(false),
                1 => Ok(true),
                _ => Err(
                    Error::Protocol(with_number("invalid TCP control boolean ", value as u64, "")),
                ),
            },
            Err(error) => Err(error),
        }
    }

    pub fn string(&mut self) -> (read: Result<String>)
        ensures
            final(self).input() == old(self).input(),
            match read {
                Ok(value) => text_at(old(self).input(), old(self).at()) == Ok::<
                    (Seq<char>, int),
                    ErrorView,
                >((value@, final(self).at())),
                Err(error) => text_at(old(self).input(), old(self).at()) == Err::<
                    (Seq<char>, int),
                    ErrorView,
                >(error@),
            },
    {
        let length: usize = match self.take(2) {
            Ok(taken) => {
                assert(taken@.subrange(0, 2) =~= taken@);
                read_u16(taken, 0) as usize
            },
            Err(error) => {
                return Err(error);
            },
        };
        match self.take(length) {
            Ok(taken) => match text_from_utf8(taken) {
                Some(value) => {
                    proof {
                        vstd::utf8::encode_utf8_decode_utf8(value@);
                    }
                    Ok(value)
                },
                None => Err(protocol("TCP control string is not UTF-8")),
            },
            Err(error) => Err(error),
        }
    }

    /// Whether the whole payload was read.
    pub fn finish(self) -> (finished: Result<()>)
        ensures
            match finished {
                Ok(()) => ended(self.input(), self.at()) is None,
                Err(error) => ended(self.input(), self.at()) == Some(error@),
            },
    {
        if self.position == self.bytes.len() {
            Ok(())
        } else {
            Err(protocol("TCP control payload has trailing bytes"))
        }
    }
}

/// The byte that stands for a scenario on the wire.
pub open spec fn scenario_byte(value: BenchmarkScenario) -> u8 {
    match value {
        BenchmarkScenario::Memory => 1,
        BenchmarkScenario::File => 2,
    }
}

/// The scenario that a byte stands for, or why it is refused.
pub open spec fn scenario_of(value: u8) -> core::result::Result<BenchmarkScenario, ErrorView> {
    if value == 1 {
        Ok(BenchmarkScenario::Memory)
    } else if value == 2 {
        Ok(BenchmarkScenario::File)
    } else {
        Err(ErrorView::Protocol("unknown TCP scenario "@ + text::decimal(value as nat) + ""@))
    }
}

/// The byte that stands for a scenario on the wire.
pub fn scenario_wire(value: BenchmarkScenario) -> (byte: u8)
    ensures
        byte == scenario_byte(value),
{
    match value {
        BenchmarkScenario::Memory => 1,
        BenchmarkScenario::File => 2,
    }
}

/// The scenario that a byte stands for.
pub fn scenario_from_wire(value: u8) -> (decoded: Result<BenchmarkScenario>)
    ensures
        match decoded {
            Ok(decoded) => scenario_of(value) == Ok::<BenchmarkScenario, ErrorView>(decoded),
            Err(error) => scenario_of(value) == Err::<BenchmarkScenario, ErrorView>(error@),
        },
{
    match value {
        1 => Ok(BenchmarkScenario::Memory),
        2 => Ok(BenchmarkScenario::File),
        _ => Err(Error::Protocol(with_number("unknown TCP scenario ", value as u64, ""))),
    }
}

/// The byte that stands for a transport on the wire.
pub open spec fn transport_byte(value: BenchmarkTransport) -> u8 {
    match value {
        BenchmarkTransport::TcpUserspace => 1,
        BenchmarkTransport::TcpSendfile => 2,
        BenchmarkTransport::Urma => 3,
    }
}

/// The transport that a byte stands for, or why it is refused.
pub open spec fn transport_of(value: u8) -> core::result::Result<BenchmarkTransport, ErrorView> {
    if value == 1 {
        Ok(BenchmarkTransport::TcpUserspace)
    } else if value == 2 {
        Ok(BenchmarkTransport::TcpSendfile)
    } else if value == 3 {
        Ok(BenchmarkTransport::Urma)
    } else {
        Err(ErrorView::Protocol("unknown TCP transport "@ + text::decimal(value as nat) + ""@))
    }
}

/// The byte that stands for a transport on the wire.
pub fn transport_wire(value: BenchmarkTransport) -> (byte: u8)
    ensures
        byte == transport_byte(value),
{
    match value {
        BenchmarkTransport::TcpUserspace => 1,
        BenchmarkTransport::TcpSendfile => 2,
        BenchmarkTransport::Urma => 3,
    }
}

/// The transport that a byte stands for.
pub fn transport_from_wire(value: u8) -> (decoded: Result<BenchmarkTransport>)
    ensures
        match decoded {
            Ok(decoded) => transport_of(value) == Ok::<BenchmarkTransport, ErrorView>(decoded),
            Err(error) => transport_of(value) == Err::<BenchmarkTransport, ErrorView>(error@),
        },
{
    match value {
        1 => Ok(BenchmarkTransport::TcpUserspace),
        2 => Ok(BenchmarkTransport::TcpSendfile),
        3 => Ok(BenchmarkTransport::Urma),
        _ => Err(Error::Protocol(with_number("unknown TCP transport ", value as u64, ""))),
    }
}

/// The byte that stands for a timing mode on the wire.
pub open spec fn timing_byte(value: TimingMode) -> u8 {
    match value {
        TimingMode::SteadyState => 1,
        TimingMode::SetupIncluded => 2,
    }
}

/// The timing mode that a byte stands for, or why it is refused.
pub open spec fn timing_of(value: u8) -> core::result::Result<TimingMode, ErrorView> {
    if value == 1 {
        Ok(TimingMode::SteadyState)
    } else if value == 2 {
        Ok(TimingMode::SetupIncluded)
    } else {
        Err(ErrorView::Protocol("unknown TCP timing mode "@ + text::decimal(value as nat) + ""@))
    }
}

/// The byte that stands for a timing mode on the wire.
pub fn timing_wire(value: TimingMode) -> (byte: u8)
    ensures
        byte == timing_byte(value),
{
    match value {
        TimingMode::SteadyState => 1,
        TimingMode::SetupIncluded => 2,
    }
}

/// The timing mode that a byte stands for.
pub fn timing_from_wire(value: u8) -> (decoded: Result<TimingMode>)
    ensures
        match decoded {
            Ok(decoded) => timing_of(value) == Ok::<TimingMode, ErrorView>(decoded),
            Err(error) => timing_of(value) == Err::<TimingMode, ErrorView>(error@),
        },
{
    match value {
        1 => Ok(TimingMode::SteadyState),
        2 => Ok(TimingMode::SetupIncluded),
        _ => Err(Error::Protocol(with_number("unknown TCP timing mode ", value as u64, ""))),
    }
}

/// The byte that stands for a completion policy on the wire.
pub open spec fn completion_byte(value: FileCompletionPolicy) -> u8 {
    match value {
        FileCompletionPolicy::Buffered => 1,
        FileCompletionPolicy::Durable => 2,
    }
}

/// The completion policy that a byte stands for, or why it is refused.
pub open spec fn completion_of(value: u8) -> core::result::Result<FileCompletionPolicy, ErrorView> {
    if value == 1 {
        Ok(FileCompletionPolicy::Buffered)
    } else if value == 2 {
        Ok(FileCompletionPolicy::Durable)
    } else {
        Err(ErrorView::Protocol("unknown TCP completion policy "@ + text::decimal(value as nat) + ""@))
    }
}

/// The byte that stands for a completion policy on the wire.
pub fn completion_wire(value: FileCompletionPolicy) -> (byte: u8)
    ensures
        byte == completion_byte(value),
{
    match value {
        FileCompletionPolicy::Buffered => 1,
        FileCompletionPolicy::Durable => 2,
    }
}

/// The completion policy that a byte stands for.
pub fn completion_from_wire(value: u8) -> (decoded: Result<FileCompletionPolicy>)
    ensures
        match decoded {
            Ok(decoded) => completion_of(value) == Ok::<FileCompletionPolicy, ErrorView>(decoded),
            Err(error) => completion_of(value) == Err::<FileCompletionPolicy, ErrorView>(error@),
        },
{
    match value {
        1 => Ok(FileCompletionPolicy::Buffered),
        2 => Ok(FileCompletionPolicy::Durable),
        _ => Err(Error::Protocol(with_number("unknown TCP completion policy ", value as u64, ""))),
    }
}

/// The bytes of a text.
pub open spec fn text_wire(value: Seq<char>) -> Seq<u8> {
    bytes::be(text::utf8(value).len(), 2) + text::utf8(value)
}

/// The text that is a whole payload, or why it is refused.
pub open spec fn text_parse(input: Seq<u8>) -> core::result::Result<Seq<char>, ErrorView> {
    match text_at(input, 0) {
        Err(error) => Err(error),
        Ok((value, next)) => match ended(input, next) {
            Some(error) => Err(error),
            None => Ok(value),
        },
    }
}

/// The payload that is a text.
pub fn encode_string_payload(value: &str) -> (payload: Result<Vec<u8>>)
    ensures
        match payload {
            Ok(payload) => text::utf8(value@).len() <= u16::MAX && payload@ == text_wire(value@),
            Err(error) => {
                &&& text::utf8(value@).len() > u16::MAX
                &&& error@ == ErrorView::Protocol("TCP control string exceeds u16"@)
            },
        },
{
    let text = value.as_bytes();
    if text.len() > u16::MAX as usize {
        return Err(protocol("TCP control string exceeds u16"));
    }
    let mut output: Vec<u8> = Vec::new();
    push_u16(&mut output, text.len() as u16);
    push_bytes(&mut output, text);
    assert(output@ =~= text_wire(value@));
    Ok(output)
}

/// The text that is a whole payload.
pub fn decode_string_payload(input: &[u8]) -> (decoded: Result<String>)
    ensures
        match decoded {
            Ok(value) => text_parse(input@) == Ok::<Seq<char>, ErrorView>(value@),
            Err(error) => text_parse(input@) == Err::<Seq<char>, ErrorView>(error@),
        },
{
    let mut cursor = WireCursor::new(input);
    let value = match cursor.string() {
        Ok(value) => value,
        Err(error) => {
            return Err(error);
        },
    };
    match cursor.finish() {
        Ok(()) => Ok(value),
        Err(error) => Err(error),
    }
}

/// Why a frame is refused where another kind was waited for, if it is refused.
pub open spec fn frame_error(kind: FrameType, payload: Seq<u8>, expected: FrameType) -> Option<
    ErrorView,
> {
    if kind == FrameType::Error {
        match text_parse(payload) {
            Err(error) => Some(error),
            Ok(message) => Some(ErrorView::Protocol("remote TCP benchmark error: "@ + message)),
        }
    } else if kind != expected {
        Some(
            ErrorView::Protocol(
                "received TCP control frame "@ + kind.name() + ", expected "@ + expected.name(),
            ),
        )
    } else {
        None
    }
}

/// Whether a frame is of the kind that was waited for.
pub fn expect_frame(kind: FrameType, payload: &[u8], expected: FrameType) -> (checked: Result<()>)
    ensures
        match checked {
            Ok(()) => frame_error(kind, payload@, expected) is None,
            Err(error) => frame_error(kind, payload@, expected) == Some(error@),
        },
{
    if kind == FrameType::Error {
        match decode_string_payload(payload) {
            Ok(message) => {
                let mut detail = "remote TCP benchmark error: ".to_owned();
                detail.append(message.as_str());
                return Err(Error::Protocol(detail));
            },
            Err(error) => {
                return Err(error);
            },
        }
    }
    if kind != expected {
        let mut detail = "received TCP control frame ".to_owned();
        detail.append(kind.label());
        detail.append(", expected ");
        detail.append(expected.label());
        return Err(Error::Protocol(detail));
    }
    Ok(())
}

/// Whether a payload names the case; `mismatch` is the error's text where it does not.
pub fn expect_case_identity(input: &[u8], case_id: &str, mismatch: &'static str) -> (checked: Result<
    (),
>)
    ensures
        match checked {
            Ok(()) => text_parse(input@) == Ok::<Seq<char>, ErrorView>(case_id@),
            Err(error) => match text_parse(input@) {
                Err(refused) => error@ == refused,
                Ok(named) => named != case_id@ && error@ == ErrorView::Protocol(mismatch@),
            },
        },
{
    match decode_string_payload(input) {
        Ok(named) => {
            if !same_text(named.as_str(), case_id) {
                return Err(protocol(mismatch));
            }
            Ok(())
        },
        Err(error) => Err(error),
    }
}

/// The bytes of a case.
pub open spec fn case_wire(case: CaseView) -> Seq<u8> {
    text_wire(case.case_id) + bytes::be(case.repeat as nat, 4) + seq![
        scenario_byte(case.scenario),
        transport_byte(case.transport),
        timing_byte(case.timing_mode),
        completion_byte(case.completion_policy),
    ] + bytes::be(case.transfer_bytes as nat, 8) + bytes::be(case.chunk_size as nat, 8)
        + bytes::be(case.window as nat, 4) + bytes::be(case.data_seed as nat, 8)
}

/// A case that can be run, or why it cannot.
pub open spec fn checked_case(case: CaseView) -> core::result::Result<CaseView, ErrorView> {
    match case.error() {
        Some(error) => Err(error),
        None => Ok(case),
    }
}

/// The case that a payload holds, or why it is refused.
pub open spec fn case_parse(input: Seq<u8>) -> core::result::Result<CaseView, ErrorView> {
    match text_at(input, 0) {
        Err(error) => Err(error),
        Ok((case_id, at1)) => match u32_at(input, at1) {
            Err(error) => Err(error),
            Ok((repeat, at2)) => match u8_at(input, at2) {
                Err(error) => Err(error),
                Ok((scenario_byte, at3)) => match scenario_of(scenario_byte) {
                    Err(error) => Err(error),
                    Ok(scenario) => match u8_at(input, at3) {
                        Err(error) => Err(error),
                        Ok((transport_byte, at4)) => match transport_of(transport_byte) {
                            Err(error) => Err(error),
                            Ok(transport) => match u8_at(input, at4) {
                                Err(error) => Err(error),
                                Ok((timing_mode_byte, at5)) => match timing_of(timing_mode_byte) {
                                    Err(error) => Err(error),
                                    Ok(timing_mode) => match u8_at(input, at5) {
                                        Err(error) => Err(error),
                                        Ok((completion_policy_byte, at6)) => match completion_of(completion_policy_byte) {
                                            Err(error) => Err(error),
                                            Ok(completion_policy) => match u64_at(input, at6) {
                                                Err(error) => Err(error),
                                                Ok((transfer_bytes, at7)) => match u64_at(input, at7) {
                                                    Err(error) => Err(error),
                                                    Ok((chunk_size, at8)) => match u32_at(input, at8) {
                                                        Err(error) => Err(error),
                                                        Ok((window, at9)) => match u64_at(input, at9) {
                                                            Err(error) => Err(error),
                                                            Ok((data_seed, at10)) => match ended(input, at10) {
                                                                Some(error) => Err(error),
                                                                None => checked_case(
                                                                    CaseView { case_id, repeat, scenario, transport, transfer_bytes, chunk_size, window, timing_mode, completion_policy, data_seed },
                                                                ),
                                                            },
                                                        },
                                                    },
                                                },
                                            },
                                        },
                                    },
                                },
                            },
                        },
                    },
                },
            },
        },
    }
}

/// The payload of Request.
pub fn encode_case(case: &BenchmarkCase) -> (payload: Result<Vec<u8>>)
    ensures
        match payload {
            Ok(payload) => {
                &&& text::utf8(case.case_id@).len() <= u16::MAX
                &&& payload@ == case_wire(case@)
            },
            Err(error) => {
                &&& text::utf8(case.case_id@).len() > u16::MAX
                &&& error@ == ErrorView::Protocol("TCP control string exceeds u16"@)
            },
        },
{
    let mut output = match encode_string_payload(case.case_id.as_str()) {
        Ok(output) => output,
        Err(error) => {
            return Err(error);
        },
    };
    push_u32(&mut output, case.repeat);
    output.push(scenario_wire(case.scenario));
    output.push(transport_wire(case.transport));
    output.push(timing_wire(case.timing_mode));
    output.push(completion_wire(case.completion_policy));
    push_u64(&mut output, case.transfer_bytes);
    push_u64(&mut output, case.chunk_size);
    push_u32(&mut output, case.window);
    push_u64(&mut output, case.data_seed);
    assert(output@ =~= case_wire(case@));
    Ok(output)
}

/// The case that a Request holds.
pub fn decode_case(input: &[u8]) -> (decoded: Result<BenchmarkCase>)
    ensures
        match decoded {
            Ok(case) => case_parse(input@) == Ok::<CaseView, ErrorView>(case@),
            Err(error) => case_parse(input@) == Err::<CaseView, ErrorView>(error@),
        },
{
    let mut cursor = WireCursor::new(input);
    let case_id = match cursor.string() {
        Ok(value) => value,
        Err(error) => {
            return Err(error);
        },
    };
    let repeat: u32 = match cursor.u32() {
        Ok(value) => value,
        Err(error) => {
            return Err(error);
        },
    };
    let scenario_byte: u8 = match cursor.u8() {
        Ok(value) => value,
        Err(error) => {
            return Err(error);
        },
    };
    let scenario = match scenario_from_wire(scenario_byte) {
        Ok(value) => value,
        Err(error) => {
            return Err(error);
        },
    };
    let transport_byte: u8 = match cursor.u8() {
        Ok(value) => value,
        Err(error) => {
            return Err(error);
        },
    };
    let transport = match transport_from_wire(transport_byte) {
        Ok(value) => value,
        Err(error) => {
            return Err(error);
        },
    };
    let timing_mode_byte: u8 = match cursor.u8() {
        Ok(value) => value,
        Err(error) => {
            return Err(error);
        },
    };
    let timing_mode = match timing_from_wire(timing_mode_byte) {
        Ok(value) => value,
        Err(error) => {
            return Err(error);
        },
    };
    let completion_policy_byte: u8 = match cursor.u8() {
        Ok(value) => value,
        Err(error) => {
            return Err(error);
        },
    };
    let completion_policy = match completion_from_wire(completion_policy_byte) {
        Ok(value) => value,
        Err(error) => {
            return Err(error);
        },
    };
    let transfer_bytes: u64 = match cursor.u64() {
        Ok(value) => value,
        Err(error) => {
            return Err(error);
        },
    };
    let chunk_size: u64 = match cursor.u64() {
        Ok(value) => value,
        Err(error) => {
            return Err(error);
        },
    };
    let window: u32 = match cursor.u32() {
        Ok(value) => value,
        Err(error) => {
            return Err(error);
        },
    };
    let data_seed: u64 = match cursor.u64() {
        Ok(value) => value,
        Err(error) => {
            return Err(error);
        },
    };
    match cursor.finish() {
        Ok(()) => {},
        Err(error) => {
            return Err(error);
        },
    }
    BenchmarkCase::new(
        case_id,
        repeat,
        scenario,
        transport,
        transfer_bytes,
        chunk_size,
        window,
        timing_mode,
        completion_policy,
        data_seed,
    )
}

/// What a parent announces of its source.
#[derive(Debug, Eq, PartialEq)]
pub struct MetadataMessage {
    pub case_id: String,
    pub scenario: BenchmarkScenario,
    pub expected_bytes: u64,
    pub expected_crc32: u32,
}

/// A [`MetadataMessage`] with its case as a character sequence.
pub struct MetadataView {
    pub case_id: Seq<char>,
    pub scenario: BenchmarkScenario,
    pub expected_bytes: u64,
    pub expected_crc32: u32,
}

impl View for MetadataMessage {
    type V = MetadataView;

    open spec fn view(&self) -> MetadataView {
        MetadataView {
            case_id: self.case_id@,
            scenario: self.scenario,
            expected_bytes: self.expected_bytes,
            expected_crc32: self.expected_crc32,
        }
    }
}

/// The bytes of metadata.
pub open spec fn metadata_wire(metadata: MetadataView) -> Seq<u8> {
    text_wire(metadata.case_id) + seq![scenario_byte(metadata.scenario)] + bytes::be(
        metadata.expected_bytes as nat,
        8,
    ) + bytes::be(metadata.expected_crc32 as nat, 4)
}

/// The metadata that a payload holds, or why it is refused.
pub open spec fn metadata_parse(input: Seq<u8>) -> core::result::Result<MetadataView, ErrorView> {
    match text_at(input, 0) {
        Err(error) => Err(error),
        Ok((case_id, at1)) => match u8_at(input, at1) {
            Err(error) => Err(error),
            Ok((scenario_byte, at2)) => match scenario_of(scenario_byte) {
                Err(error) => Err(error),
                Ok(scenario) => match u64_at(input, at2) {
                    Err(error) => Err(error),
                    Ok((expected_bytes, at3)) => match u32_at(input, at3) {
                        Err(error) => Err(error),
                        Ok((expected_crc32, at4)) => match ended(input, at4) {
                            Some(error) => Err(error),
                            None => Ok(MetadataView { case_id, scenario, expected_bytes, expected_crc32 }),
                        },
                    },
                },
            },
        },
    }
}

/// The payload of Metadata.
pub fn encode_metadata(metadata: &MetadataMessage) -> (payload: Result<Vec<u8>>)
    ensures
        match payload {
            Ok(payload) => {
                &&& text::utf8(metadata.case_id@).len() <= u16::MAX
                &&& payload@ == metadata_wire(metadata@)
            },
            Err(error) => {
                &&& text::utf8(metadata.case_id@).len() > u16::MAX
                &&& error@ == ErrorView::Protocol("TCP control string exceeds u16"@)
            },
        },
{
    let mut output = match encode_string_payload(metadata.case_id.as_str()) {
        Ok(output) => output,
        Err(error) => {
            return Err(error);
        },
    };
    output.push(scenario_wire(metadata.scenario));
    push_u64(&mut output, metadata.expected_bytes);
    push_u32(&mut output, metadata.expected_crc32);
    assert(output@ =~= metadata_wire(metadata@));
    Ok(output)
}

/// The metadata that a payload holds.
pub fn decode_metadata(input: &[u8]) -> (decoded: Result<MetadataMessage>)
    ensures
        match decoded {
            Ok(metadata) => metadata_parse(input@) == Ok::<MetadataView, ErrorView>(metadata@),
            Err(error) => metadata_parse(input@) == Err::<MetadataView, ErrorView>(error@),
        },
{
    let mut cursor = WireCursor::new(input);
    let case_id = match cursor.string() {
        Ok(value) => value,
        Err(error) => {
            return Err(error);
        },
    };
    let scenario_byte: u8 = match cursor.u8() {
        Ok(value) => value,
        Err(error) => {
            return Err(error);
        },
    };
    let scenario = match scenario_from_wire(scenario_byte) {
        Ok(value) => value,
        Err(error) => {
            return Err(error);
        },
    };
    let expected_bytes: u64 = match cursor.u64() {
        Ok(value) => value,
        Err(error) => {
            return Err(error);
        },
    };
    let expected_crc32: u32 = match cursor.u32() {
        Ok(value) => value,
        Err(error) => {
            return Err(error);
        },
    };
    match cursor.finish() {
        Ok(()) => {},
        Err(error) => {
            return Err(error);
        },
    }
    Ok(MetadataMessage { case_id, scenario, expected_bytes, expected_crc32 })
}

/// What a child reports at the end of a TCP run.
#[derive(Debug, Eq, PartialEq)]
pub struct DoneMessage {
    pub case_id: String,
    pub integrity: IntegrityResult,
    pub elapsed_ns: u64,
    pub child_cpu: CpuUsage,
    pub child_read_calls: u64,
    pub bytes_received: u64,
}

/// A [`DoneMessage`] with its case as a character sequence.
pub struct TcpDoneView {
    pub case_id: Seq<char>,
    pub integrity: IntegrityResult,
    pub elapsed_ns: u64,
    pub child_cpu: CpuUsage,
    pub child_read_calls: u64,
    pub bytes_received: u64,
}

impl View for DoneMessage {
    type V = TcpDoneView;

    open spec fn view(&self) -> TcpDoneView {
        TcpDoneView {
            case_id: self.case_id@,
            integrity: self.integrity,
            elapsed_ns: self.elapsed_ns,
            child_cpu: self.child_cpu,
            child_read_calls: self.child_read_calls,
            bytes_received: self.bytes_received,
        }
    }
}

/// The byte that stands for a truth value on the wire.
pub open spec fn bool_byte(value: bool) -> u8 {
    if value {
        1
    } else {
        0
    }
}

fn bool_wire(value: bool) -> (byte: u8)
    ensures
        byte == bool_byte(value),
{
    if value {
        1
    } else {
        0
    }
}

/// The bytes of a child's report.
pub open spec fn done_wire(done: TcpDoneView) -> Seq<u8> {
    text_wire(done.case_id) + bytes::be(done.integrity.expected_bytes as nat, 8) + bytes::be(
        done.integrity.actual_bytes as nat,
        8,
    ) + bytes::be(done.integrity.expected_crc32 as nat, 4) + bytes::be(
        done.integrity.actual_crc32 as nat,
        4,
    ) + seq![bool_byte(done.integrity.length_ok), bool_byte(done.integrity.digest_ok)] + bytes::be(
        done.elapsed_ns as nat,
        8,
    ) + bytes::be(done.child_cpu.user_us as nat, 8) + bytes::be(done.child_cpu.system_us as nat, 8)
        + bytes::be(done.child_read_calls as nat, 8) + bytes::be(done.bytes_received as nat, 8)
}

/// The report that a payload holds, or why it is refused.
pub open spec fn done_parse(input: Seq<u8>) -> core::result::Result<TcpDoneView, ErrorView> {
    match text_at(input, 0) {
        Err(error) => Err(error),
        Ok((case_id, at1)) => match u64_at(input, at1) {
            Err(error) => Err(error),
            Ok((expected_bytes, at2)) => match u64_at(input, at2) {
                Err(error) => Err(error),
                Ok((actual_bytes, at3)) => match u32_at(input, at3) {
                    Err(error) => Err(error),
                    Ok((expected_crc32, at4)) => match u32_at(input, at4) {
                        Err(error) => Err(error),
                        Ok((actual_crc32, at5)) => match bool_at(input, at5) {
                            Err(error) => Err(error),
                            Ok((length_ok, at6)) => match bool_at(input, at6) {
                                Err(error) => Err(error),
                                Ok((digest_ok, at7)) => match u64_at(input, at7) {
                                    Err(error) => Err(error),
                                    Ok((elapsed_ns, at8)) => match u64_at(input, at8) {
                                        Err(error) => Err(error),
                                        Ok((user_us, at9)) => match u64_at(input, at9) {
                                            Err(error) => Err(error),
                                            Ok((system_us, at10)) => match u64_at(input, at10) {
                                                Err(error) => Err(error),
                                                Ok((child_read_calls, at11)) => match u64_at(input, at11) {
                                                    Err(error) => Err(error),
                                                    Ok((bytes_received, at12)) => match ended(input, at12) {
                                                        Some(error) => Err(error),
                                                        None => Ok(TcpDoneView {
                                                                case_id,
                                                                integrity: IntegrityResult {
                                                                    expected_bytes,
                                                                    actual_bytes,
                                                                    expected_crc32,
                                                                    actual_crc32,
                                                                    length_ok,
                                                                    digest_ok,
                                                                },
                                                                elapsed_ns,
                                                                child_cpu: CpuUsage { user_us, system_us },
                                                                child_read_calls,
                                                                bytes_received,
                                                        }),
                                                    },
                                                },
                                            },
                                        },
                                    },
                                },
                            },
                        },
                    },
                },
            },
        },
    }
}

/// The payload of Done.
pub fn encode_done(done: &DoneMessage) -> (payload: Result<Vec<u8>>)
    ensures
        match payload {
            Ok(payload) => {
                &&& text::utf8(done.case_id@).len() <= u16::MAX
                &&& payload@ == done_wire(done@)
            },
            Err(error) => {
                &&& text::utf8(done.case_id@).len() > u16::MAX
                &&& error@ == ErrorView::Protocol("TCP control string exceeds u16"@)
            },
        },
{
    let mut output = match encode_string_payload(done.case_id.as_str()) {
        Ok(output) => output,
        Err(error) => {
            return Err(error);
        },
    };
    push_u64(&mut output, done.integrity.expected_bytes);
    push_u64(&mut output, done.integrity.actual_bytes);
    push_u32(&mut output, done.integrity.expected_crc32);
    push_u32(&mut output, done.integrity.actual_crc32);
    output.push(bool_wire(done.integrity.length_ok));
    output.push(bool_wire(done.integrity.digest_ok));
    push_u64(&mut output, done.elapsed_ns);
    push_u64(&mut output, done.child_cpu.user_us);
    push_u64(&mut output, done.child_cpu.system_us);
    push_u64(&mut output, done.child_read_calls);
    push_u64(&mut output, done.bytes_received);
    assert(output@ =~= done_wire(done@));
    Ok(output)
}

/// The report that a payload holds.
pub fn decode_done(input: &[u8]) -> (decoded: Result<DoneMessage>)
    ensures
        match decoded {
            Ok(done) => done_parse(input@) == Ok::<TcpDoneView, ErrorView>(done@),
            Err(error) => done_parse(input@) == Err::<TcpDoneView, ErrorView>(error@),
        },
{
    let mut cursor = WireCursor::new(input);
    let case_id = match cursor.string() {
        Ok(value) => value,
        Err(error) => {
            return Err(error);
        },
    };
    let expected_bytes: u64 = match cursor.u64() {
        Ok(value) => value,
        Err(error) => {
            return Err(error);
        },
    };
    let actual_bytes: u64 = match cursor.u64() {
        Ok(value) => value,
        Err(error) => {
            return Err(error);
        },
    };
    let expected_crc32: u32 = match cursor.u32() {
        Ok(value) => value,
        Err(error) => {
            return Err(error);
        },
    };
    let actual_crc32: u32 = match cursor.u32() {
        Ok(value) => value,
        Err(error) => {
            return Err(error);
        },
    };
    let length_ok: bool = match cursor.boolean() {
        Ok(value) => value,
        Err(error) => {
            return Err(error);
        },
    };
    let digest_ok: bool = match cursor.boolean() {
        Ok(value) => value,
        Err(error) => {
            return Err(error);
        },
    };
    let elapsed_ns: u64 = match cursor.u64() {
        Ok(value) => value,
        Err(error) => {
            return Err(error);
        },
    };
    let user_us: u64 = match cursor.u64() {
        Ok(value) => value,
        Err(error) => {
            return Err(error);
        },
    };
    let system_us: u64 = match cursor.u64() {
        Ok(value) => value,
        Err(error) => {
            return Err(error);
        },
    };
    let child_read_calls: u64 = match cursor.u64() {
        Ok(value) => value,
        Err(error) => {
            return Err(error);
        },
    };
    let bytes_received: u64 = match cursor.u64() {
        Ok(value) => value,
        Err(error) => {
            return Err(error);
        },
    };
    match cursor.finish() {
        Ok(()) => {},
        Err(error) => {
            return Err(error);
        },
    }
    Ok(
        DoneMessage {
            case_id,
            integrity: IntegrityResult {
                expected_bytes,
                actual_bytes,
                expected_crc32,
                actual_crc32,
                length_ok,
                digest_ok,
            },
            elapsed_ns,
            child_cpu: CpuUsage { user_us, system_us },
            child_read_calls,
            bytes_received,
        },
    )
}

proof fn lemma_u32_at(input: Seq<u8>, at: int, value: u32)
    requires
        0 <= at,
        at + 4 <= input.len() <= usize::MAX,
        input.subrange(at, at + 4) == bytes::be(value as nat, 4),
    ensures
        u32_at(input, at) == Ok::<(u32, int), ErrorView>((value, at + 4)),
{
    bytes::lemma_be_bounds();
    bytes::lemma_be(value as nat, 4);
}

proof fn lemma_u64_at(input: Seq<u8>, at: int, value: u64)
    requires
        0 <= at,
        at + 8 <= input.len() <= usize::MAX,
        input.subrange(at, at + 8) == bytes::be(value as nat, 8),
    ensures
        u64_at(input, at) == Ok::<(u64, int), ErrorView>((value, at + 8)),
{
    bytes::lemma_be_bounds();
    bytes::lemma_be(value as nat, 8);
}

proof fn lemma_text_at(input: Seq<u8>, value: Seq<char>)
    requires
        text::utf8(value).len() <= u16::MAX,
        text_wire(value).len() <= input.len() <= usize::MAX,
        input.take(text_wire(value).len() as int) == text_wire(value),
    ensures
        text_wire(value).len() == 2 + text::utf8(value).len(),
        text_at(input, 0) == Ok::<(Seq<char>, int), ErrorView>(
            (value, 2 + text::utf8(value).len() as int),
        ),
{
    let text = text::utf8(value);
    bytes::lemma_be_bounds();
    bytes::lemma_be(text.len(), 2);
    text::lemma_utf8_properties(value);
    vstd::utf8::encode_utf8_decode_utf8(value);
    let wire = text_wire(value);
    assert(input.subrange(0, 2) =~= wire.subrange(0, 2));
    assert(wire.subrange(0, 2) =~= bytes::be(text.len(), 2));
    assert(input.subrange(2, 2 + text.len() as int) =~= wire.subrange(2, 2 + text.len() as int));
    assert(wire.subrange(2, 2 + text.len() as int) =~= text);
}

/// Reading a Request gives back the case that it was written with.
pub proof fn tcp_case_round_trip(case: CaseView)
    requires
        case.error() is None,
    ensures
        case_parse(case_wire(case)) == Ok::<CaseView, ErrorView>(case),
{
    let wire = case_wire(case);
    let at = 2 + text::utf8(case.case_id).len() as int;
    bytes::lemma_be(text::utf8(case.case_id).len(), 2);
    bytes::lemma_be(case.repeat as nat, 4);
    bytes::lemma_be(case.transfer_bytes as nat, 8);
    bytes::lemma_be(case.chunk_size as nat, 8);
    bytes::lemma_be(case.window as nat, 4);
    bytes::lemma_be(case.data_seed as nat, 8);
    assert(wire.take(at) =~= text_wire(case.case_id));
    lemma_text_at(wire, case.case_id);
    assert(wire.subrange(at, at + 4) =~= bytes::be(case.repeat as nat, 4));
    lemma_u32_at(wire, at, case.repeat);
    assert(wire.subrange(at + 8, at + 16) =~= bytes::be(case.transfer_bytes as nat, 8));
    lemma_u64_at(wire, at + 8, case.transfer_bytes);
    assert(wire.subrange(at + 16, at + 24) =~= bytes::be(case.chunk_size as nat, 8));
    lemma_u64_at(wire, at + 16, case.chunk_size);
    assert(wire.subrange(at + 24, at + 28) =~= bytes::be(case.window as nat, 4));
    lemma_u32_at(wire, at + 24, case.window);
    assert(wire.subrange(at + 28, at + 36) =~= bytes::be(case.data_seed as nat, 8));
    lemma_u64_at(wire, at + 28, case.data_seed);
}

/// Reading Metadata gives back what they were written with.
pub proof fn tcp_metadata_round_trip(metadata: MetadataView)
    requires
        text::utf8(metadata.case_id).len() <= u16::MAX,
    ensures
        metadata_parse(metadata_wire(metadata)) == Ok::<MetadataView, ErrorView>(metadata),
{
    let wire = metadata_wire(metadata);
    let at = 2 + text::utf8(metadata.case_id).len() as int;
    bytes::lemma_be(text::utf8(metadata.case_id).len(), 2);
    bytes::lemma_be(metadata.expected_bytes as nat, 8);
    bytes::lemma_be(metadata.expected_crc32 as nat, 4);
    assert(wire.take(at) =~= text_wire(metadata.case_id));
    lemma_text_at(wire, metadata.case_id);
    assert(wire.subrange(at + 1, at + 9) =~= bytes::be(metadata.expected_bytes as nat, 8));
    lemma_u64_at(wire, at + 1, metadata.expected_bytes);
    assert(wire.subrange(at + 9, at + 13) =~= bytes::be(metadata.expected_crc32 as nat, 4));
    lemma_u32_at(wire, at + 9, metadata.expected_crc32);
}

/// Reading Done gives back the report that it was written with.
pub proof fn tcp_done_round_trip(done: TcpDoneView)
    requires
        text::utf8(done.case_id).len() <= u16::MAX,
    ensures
        done_parse(done_wire(done)) == Ok::<TcpDoneView, ErrorView>(done),
{
    let wire = done_wire(done);
    let at = 2 + text::utf8(done.case_id).len() as int;
    bytes::lemma_be(text::utf8(done.case_id).len(), 2);
    bytes::lemma_be(done.integrity.expected_bytes as nat, 8);
    bytes::lemma_be(done.integrity.actual_bytes as nat, 8);
    bytes::lemma_be(done.integrity.expected_crc32 as nat, 4);
    bytes::lemma_be(done.integrity.actual_crc32 as nat, 4);
    bytes::lemma_be(done.elapsed_ns as nat, 8);
    bytes::lemma_be(done.child_cpu.user_us as nat, 8);
    bytes::lemma_be(done.child_cpu.system_us as nat, 8);
    bytes::lemma_be(done.child_read_calls as nat, 8);
    bytes::lemma_be(done.bytes_received as nat, 8);
    assert(wire.take(at) =~= text_wire(done.case_id));
    lemma_text_at(wire, done.case_id);
    assert(wire.subrange(at, at + 8) =~= bytes::be(done.integrity.expected_bytes as nat, 8));
    lemma_u64_at(wire, at, done.integrity.expected_bytes);
    assert(wire.subrange(at + 8, at + 16) =~= bytes::be(done.integrity.actual_bytes as nat, 8));
    lemma_u64_at(wire, at + 8, done.integrity.actual_bytes);
    assert(wire.subrange(at + 16, at + 20) =~= bytes::be(done.integrity.expected_crc32 as nat, 4));
    lemma_u32_at(wire, at + 16, done.integrity.expected_crc32);
    assert(wire.subrange(at + 20, at + 24) =~= bytes::be(done.integrity.actual_crc32 as nat, 4));
    lemma_u32_at(wire, at + 20, done.integrity.actual_crc32);
    assert(wire.subrange(at + 26, at + 34) =~= bytes::be(done.elapsed_ns as nat, 8));
    lemma_u64_at(wire, at + 26, done.elapsed_ns);
    assert(wire.subrange(at + 34, at + 42) =~= bytes::be(done.child_cpu.user_us as nat, 8));
    lemma_u64_at(wire, at + 34, done.child_cpu.user_us);
    assert(wire.subrange(at + 42, at + 50) =~= bytes::be(done.child_cpu.system_us as nat, 8));
    lemma_u64_at(wire, at + 42, done.child_cpu.system_us);
    assert(wire.subrange(at + 50, at + 58) =~= bytes::be(done.child_read_calls as nat, 8));
    lemma_u64_at(wire, at + 50, done.child_read_calls);
    assert(wire.subrange(at + 58, at + 66) =~= bytes::be(done.bytes_received as nat, 8));
    lemma_u64_at(wire, at + 58, done.bytes_received);
}

} // verus!
