//! Transport-neutral benchmark case, timing, integrity, source and sink support.
//!
//! Preparing deterministic data, calculating expected digests, and creating
//! files are deliberately separate from [`BenchmarkTimer`]. A transport starts
//! the timer at its own boundary: after setup for steady-state measurements, or
//! before setup for setup-included measurements. Times are nanoseconds on one
//! clock, which the caller reads.

use vstd::prelude::*;

use crate::error::{invalid, Error, ErrorView, Result};
use crate::json;
use crate::json::{is_control_char, JsonObject};
use crate::text;
use crate::text::{quote, same_text, with_numbers, Text};

pub mod laws;
pub mod payload;
pub mod stats;

pub use payload::{BenchmarkSink, FileGenerator, FileSink, FileSource, MemorySink, MemorySource};
pub use stats::TransportStats;

verus! {

/// The error for a text that names no value.
pub(crate) fn unknown(prefix: &str, value: &str, suffix: &str) -> (error: Error)
    ensures
        error@ == ErrorView::InvalidConfiguration(prefix@ + text::quoted(value@) + suffix@),
{
    let mut detail = prefix.to_owned();
    detail.append(quote(value).as_str());
    detail.append(suffix);
    Error::InvalidConfiguration(detail)
}

/// Where a benchmark's bytes come from and go to.
#[derive(Clone, Copy, Debug, Eq, PartialEq, Structural)]
pub enum BenchmarkScenario {
    Memory,
    File,
}

impl BenchmarkScenario {
    /// The value's name.
    pub open spec fn name(self) -> Seq<char> {
        match self {
            BenchmarkScenario::Memory => "memory"@,
            BenchmarkScenario::File => "file"@,
        }
    }

    /// The value that a text names, or why it names none.
    pub open spec fn parse(value: Seq<char>) -> core::result::Result<Self, ErrorView> {
        if value == "memory"@ || value == "memory-to-memory"@ {
            Ok(BenchmarkScenario::Memory)
        } else if value == "file"@ || value == "file-to-file"@ {
            Ok(BenchmarkScenario::File)
        } else {
            Err(
                ErrorView::InvalidConfiguration(
                    "unknown benchmark scenario "@ + text::quoted(value) + "; expected memory or file"@,
                ),
            )
        }
    }

    /// The value's name.
    pub fn as_str(self) -> (name: &'static str)
        ensures
            name@ == self.name(),
    {
        match self {
            BenchmarkScenario::Memory => "memory",
            BenchmarkScenario::File => "file",
        }
    }

    /// The value that a text names.
    pub fn from_str(value: &str) -> (parsed: Result<Self>)
        ensures
            match parsed {
                Ok(parsed) => Self::parse(value@) == Ok::<Self, ErrorView>(parsed),
                Err(error) => Self::parse(value@) == Err::<Self, ErrorView>(error@),
            },
    {
        proof {
            reveal_strlit("memory");
            reveal_strlit("memory-to-memory");
            reveal_strlit("file");
            reveal_strlit("file-to-file");
        }
        if same_text(value, "memory") || same_text(value, "memory-to-memory") {
            return Ok(BenchmarkScenario::Memory);
        }
        if same_text(value, "file") || same_text(value, "file-to-file") {
            return Ok(BenchmarkScenario::File);
        }
        Err(unknown("unknown benchmark scenario ", value, "; expected memory or file"))
    }
}

/// How a benchmark moves its bytes.
#[derive(Clone, Copy, Debug, Eq, PartialEq, Structural)]
pub enum BenchmarkTransport {
    TcpUserspace,
    TcpSendfile,
    Urma,
}

impl BenchmarkTransport {
    /// The value's name.
    pub open spec fn name(self) -> Seq<char> {
        match self {
            BenchmarkTransport::TcpUserspace => "tcp-userspace"@,
            BenchmarkTransport::TcpSendfile => "tcp-sendfile"@,
            BenchmarkTransport::Urma => "urma"@,
        }
    }

    /// The value that a text names, or why it names none.
    pub open spec fn parse(value: Seq<char>) -> core::result::Result<Self, ErrorView> {
        if value == "tcp-userspace"@ {
            Ok(BenchmarkTransport::TcpUserspace)
        } else if value == "tcp-sendfile"@ {
            Ok(BenchmarkTransport::TcpSendfile)
        } else if value == "urma"@ {
            Ok(BenchmarkTransport::Urma)
        } else {
            Err(
                ErrorView::InvalidConfiguration(
                    "unknown benchmark transport "@ + text::quoted(value) + "; expected tcp-userspace, tcp-sendfile, or urma"@,
                ),
            )
        }
    }

    /// The value's name.
    pub fn as_str(self) -> (name: &'static str)
        ensures
            name@ == self.name(),
    {
        match self {
            BenchmarkTransport::TcpUserspace => "tcp-userspace",
            BenchmarkTransport::TcpSendfile => "tcp-sendfile",
            BenchmarkTransport::Urma => "urma",
        }
    }

    /// The value that a text names.
    pub fn from_str(value: &str) -> (parsed: Result<Self>)
        ensures
            match parsed {
                Ok(parsed) => Self::parse(value@) == Ok::<Self, ErrorView>(parsed),
                Err(error) => Self::parse(value@) == Err::<Self, ErrorView>(error@),
            },
    {
        proof {
            reveal_strlit("tcp-userspace");
            reveal_strlit("tcp-sendfile");
            reveal_strlit("urma");
        }
        if same_text(value, "tcp-userspace") {
            return Ok(BenchmarkTransport::TcpUserspace);
        }
        if same_text(value, "tcp-sendfile") {
            return Ok(BenchmarkTransport::TcpSendfile);
        }
        if same_text(value, "urma") {
            return Ok(BenchmarkTransport::Urma);
        }
        Err(unknown("unknown benchmark transport ", value, "; expected tcp-userspace, tcp-sendfile, or urma"))
    }
}

/// Where a measurement starts.
#[derive(Clone, Copy, Debug, Eq, PartialEq, Structural)]
pub enum TimingMode {
    SteadyState,
    SetupIncluded,
}

impl TimingMode {
    /// The value's name.
    pub open spec fn name(self) -> Seq<char> {
        match self {
            TimingMode::SteadyState => "steady-state"@,
            TimingMode::SetupIncluded => "setup-included"@,
        }
    }

    /// The value that a text names, or why it names none.
    pub open spec fn parse(value: Seq<char>) -> core::result::Result<Self, ErrorView> {
        if value == "steady-state"@ {
            Ok(TimingMode::SteadyState)
        } else if value == "setup-included"@ {
            Ok(TimingMode::SetupIncluded)
        } else {
            Err(
                ErrorView::InvalidConfiguration(
                    "unknown timing mode "@ + text::quoted(value) + "; expected steady-state or setup-included"@,
                ),
            )
        }
    }

    /// The value's name.
    pub fn as_str(self) -> (name: &'static str)
        ensures
            name@ == self.name(),
    {
        match self {
            TimingMode::SteadyState => "steady-state",
            TimingMode::SetupIncluded => "setup-included",
        }
    }

    /// The value that a text names.
    pub fn from_str(value: &str) -> (parsed: Result<Self>)
        ensures
            match parsed {
                Ok(parsed) => Self::parse(value@) == Ok::<Self, ErrorView>(parsed),
                Err(error) => Self::parse(value@) == Err::<Self, ErrorView>(error@),
            },
    {
        proof {
            reveal_strlit("steady-state");
            reveal_strlit("setup-included");
        }
        if same_text(value, "steady-state") {
            return Ok(TimingMode::SteadyState);
        }
        if same_text(value, "setup-included") {
            return Ok(TimingMode::SetupIncluded);
        }
        Err(unknown("unknown timing mode ", value, "; expected steady-state or setup-included"))
    }
}

/// When a written file counts as complete.
#[derive(Clone, Copy, Debug, Eq, PartialEq, Structural)]
pub enum FileCompletionPolicy {
    Buffered,
    Durable,
}

impl FileCompletionPolicy {
    /// The value's name.
    pub open spec fn name(self) -> Seq<char> {
        match self {
            FileCompletionPolicy::Buffered => "buffered"@,
            FileCompletionPolicy::Durable => "durable"@,
        }
    }

    /// The value that a text names, or why it names none.
    pub open spec fn parse(value: Seq<char>) -> core::result::Result<Self, ErrorView> {
        if value == "buffered"@ {
            Ok(FileCompletionPolicy::Buffered)
        } else if value == "durable"@ {
            Ok(FileCompletionPolicy::Durable)
        } else {
            Err(
                ErrorView::InvalidConfiguration(
                    "unknown completion policy "@ + text::quoted(value) + "; expected buffered or durable"@,
                ),
            )
        }
    }

    /// The value's name.
    pub fn as_str(self) -> (name: &'static str)
        ensures
            name@ == self.name(),
    {
        match self {
            FileCompletionPolicy::Buffered => "buffered",
            FileCompletionPolicy::Durable => "durable",
        }
    }

    /// The value that a text names.
    pub fn from_str(value: &str) -> (parsed: Result<Self>)
        ensures
            match parsed {
                Ok(parsed) => Self::parse(value@) == Ok::<Self, ErrorView>(parsed),
                Err(error) => Self::parse(value@) == Err::<Self, ErrorView>(error@),
            },
    {
        proof {
            reveal_strlit("buffered");
            reveal_strlit("durable");
        }
        if same_text(value, "buffered") {
            return Ok(FileCompletionPolicy::Buffered);
        }
        if same_text(value, "durable") {
            return Ok(FileCompletionPolicy::Durable);
        }
        Err(unknown("unknown completion policy ", value, "; expected buffered or durable"))
    }
}

/// One measured transfer.
#[derive(Clone, Debug, Eq, PartialEq)]
pub struct BenchmarkCase {
    pub case_id: String,
    pub repeat: u32,
    pub scenario: BenchmarkScenario,
    pub transport: BenchmarkTransport,
    pub transfer_bytes: u64,
    pub chunk_size: u64,
    pub window: u32,
    pub timing_mode: TimingMode,
    pub completion_policy: FileCompletionPolicy,
    pub data_seed: u64,
}

/// Whether a text holds a control character.
pub open spec fn holds_control(text: Seq<char>) -> bool {
    exists|i: int| 0 <= i < text.len() && json::is_control(#[trigger] text[i])
}

/// The number of chunks of `chunk` bytes that hold `total` bytes.
pub open spec fn chunks_of(total: nat, chunk: nat) -> nat {
    (total + chunk - 1) as nat / chunk
}

/// A [`BenchmarkCase`] with its name as a character sequence.
pub struct CaseView {
    pub case_id: Seq<char>,
    pub repeat: u32,
    pub scenario: BenchmarkScenario,
    pub transport: BenchmarkTransport,
    pub transfer_bytes: u64,
    pub chunk_size: u64,
    pub window: u32,
    pub timing_mode: TimingMode,
    pub completion_policy: FileCompletionPolicy,
    pub data_seed: u64,
}

impl View for BenchmarkCase {
    type V = CaseView;

    open spec fn view(&self) -> CaseView {
        CaseView {
            case_id: self.case_id@,
            repeat: self.repeat,
            scenario: self.scenario,
            transport: self.transport,
            transfer_bytes: self.transfer_bytes,
            chunk_size: self.chunk_size,
            window: self.window,
            timing_mode: self.timing_mode,
            completion_policy: self.completion_policy,
            data_seed: self.data_seed,
        }
    }
}

impl CaseView {
    /// The members of the case's JSON line.
    pub open spec fn json_fields(self) -> Seq<(Seq<char>, Seq<char>)> {
        seq![
            ("case_id"@, json::string(self.case_id)),
            ("repeat"@, text::decimal(self.repeat as nat)),
            ("scenario"@, json::string(self.scenario.name())),
            ("transport"@, json::string(self.transport.name())),
            ("bytes"@, text::decimal(self.transfer_bytes as nat)),
            ("chunk_size"@, text::decimal(self.chunk_size as nat)),
            ("window"@, text::decimal(self.window as nat)),
            ("timing_mode"@, json::string(self.timing_mode.name())),
            ("completion_policy"@, json::string(self.completion_policy.name())),
            ("data_seed"@, text::decimal(self.data_seed as nat)),
        ]
    }

    /// Every member is a string or a number.
    pub proof fn lemma_scalars(self)
        ensures
            json::reading::all_scalars(self.json_fields()),
    {
    }

    /// Why the case is refused, if it is refused.
    pub open spec fn error(self) -> Option<ErrorView> {
        let memory = self.scenario == BenchmarkScenario::Memory;
        if !(1 <= text::utf8(self.case_id).len() <= 128) {
            Some(ErrorView::InvalidConfiguration("case_id length must be in 1..=128"@))
        } else if holds_control(self.case_id) {
            Some(ErrorView::InvalidConfiguration("case_id must not contain control characters"@))
        } else if self.repeat == 0 {
            Some(ErrorView::InvalidConfiguration("repeat must be non-zero"@))
        } else if self.chunk_size == 0 {
            Some(ErrorView::InvalidConfiguration("chunk_size must be non-zero"@))
        } else if self.chunk_size > usize::MAX {
            Some(
                ErrorView::InvalidConfiguration("chunk_size does not fit this platform's usize"@),
            )
        } else if self.chunk_size > isize::MAX {
            Some(
                ErrorView::InvalidConfiguration("chunk_size exceeds the maximum Rust buffer size"@),
            )
        } else if self.window == 0 {
            Some(ErrorView::InvalidConfiguration("window must be non-zero"@))
        } else if memory && self.transport == BenchmarkTransport::TcpSendfile {
            Some(
                ErrorView::InvalidConfiguration("tcp-sendfile is only valid for the file scenario"@),
            )
        } else if memory && self.completion_policy == FileCompletionPolicy::Durable {
            Some(
                ErrorView::InvalidConfiguration(
                    "durable completion is only valid for the file scenario"@,
                ),
            )
        } else if memory && self.transfer_bytes > usize::MAX {
            Some(
                ErrorView::InvalidConfiguration(
                    "memory transfer size does not fit this platform's usize"@,
                ),
            )
        } else if memory && self.transfer_bytes > isize::MAX {
            Some(
                ErrorView::InvalidConfiguration(
                    "memory transfer size exceeds the maximum Rust buffer size"@,
                ),
            )
        } else {
            None
        }
    }
}

impl BenchmarkCase {
    /// Why the case is refused, if it is refused.
    pub open spec fn error(self) -> Option<ErrorView> {
        self@.error()
    }

    /// The members of the case's JSON line.
    pub open spec fn json_fields(self) -> Seq<(Seq<char>, Seq<char>)> {
        self@.json_fields()
    }

    /// A valid case.
    pub fn new<T: Text>(
        case_id: T,
        repeat: u32,
        scenario: BenchmarkScenario,
        transport: BenchmarkTransport,
        transfer_bytes: u64,
        chunk_size: u64,
        window: u32,
        timing_mode: TimingMode,
        completion_policy: FileCompletionPolicy,
        data_seed: u64,
    ) -> (case: Result<Self>)
        ensures
            ({
                let view = CaseView {
                    case_id: case_id.text(),
                    repeat,
                    scenario,
                    transport,
                    transfer_bytes,
                    chunk_size,
                    window,
                    timing_mode,
                    completion_policy,
                    data_seed,
                };
                match case {
                    Ok(case) => case@ == view && view.error() is None,
                    Err(error) => view.error() == Some(error@),
                }
            }),
    {
        let case = BenchmarkCase {
            case_id: case_id.into_string(),
            repeat,
            scenario,
            transport,
            transfer_bytes,
            chunk_size,
            window,
            timing_mode,
            completion_policy,
            data_seed,
        };
        match case.validate() {
            Ok(()) => Ok(case),
            Err(error) => Err(error),
        }
    }

    /// Whether the case can be run.
    pub fn validate(&self) -> (valid: Result<()>)
        ensures
            match valid {
                Ok(()) => self.error() is None,
                Err(error) => self.error() == Some(error@),
            },
    {
        let length: usize = self.case_id.as_str().as_bytes().len();
        if length == 0 || length > 128 {
            return Err(invalid("case_id length must be in 1..=128"));
        }
        for ch in it: self.case_id.as_str().chars()
            invariant
                it.seq() == self.case_id@,
                1 <= text::utf8(self.case_id@).len() <= 128,
                forall|i: int|
                    0 <= i < it.index() ==> !json::is_control(#[trigger] self.case_id@[i]),
        {
            assert(ch == self.case_id@[it.index() as int]);
            if is_control_char(ch) {
                assert(holds_control(self.case_id@));
                return Err(invalid("case_id must not contain control characters"));
            }
        }
        if self.repeat == 0 {
            return Err(invalid("repeat must be non-zero"));
        }
        if self.chunk_size == 0 {
            return Err(invalid("chunk_size must be non-zero"));
        }
        match self.chunk_size_usize() {
            Ok(chunk_size) => {
                if chunk_size > isize::MAX as usize {
                    return Err(invalid("chunk_size exceeds the maximum Rust buffer size"));
                }
            },
            Err(error) => {
                return Err(error);
            },
        }
        if self.window == 0 {
            return Err(invalid("window must be non-zero"));
        }
        if self.scenario == BenchmarkScenario::Memory {
            if self.transport == BenchmarkTransport::TcpSendfile {
                return Err(invalid("tcp-sendfile is only valid for the file scenario"));
            }
            if self.completion_policy == FileCompletionPolicy::Durable {
                return Err(invalid("durable completion is only valid for the file scenario"));
            }
            if self.transfer_bytes > usize::MAX as u64 {
                return Err(invalid("memory transfer size does not fit this platform's usize"));
            }
            if self.transfer_bytes > isize::MAX as u64 {
                return Err(invalid("memory transfer size exceeds the maximum Rust buffer size"));
            }
        }
        Ok(())
    }

    /// The chunk size as a buffer length.
    pub fn chunk_size_usize(&self) -> (size: Result<usize>)
        ensures
            match size {
                Ok(size) => size == self.chunk_size,
                Err(error) => {
                    &&& self.chunk_size > usize::MAX
                    &&& error@ == ErrorView::InvalidConfiguration(
                        "chunk_size does not fit this platform's usize"@,
                    )
                },
            },
    {
        if self.chunk_size > usize::MAX as u64 {
            return Err(invalid("chunk_size does not fit this platform's usize"));
        }
        Ok(self.chunk_size as usize)
    }

    /// The number of chunks that hold the transfer.
    pub fn chunk_count(&self) -> (count: Result<u64>)
        ensures
            match count {
                Ok(count) => {
                    &&& self.chunk_size > 0
                    &&& count == chunks_of(self.transfer_bytes as nat, self.chunk_size as nat)
                },
                Err(error) => {
                    &&& self.chunk_size == 0
                    &&& error@ == ErrorView::InvalidConfiguration("chunk_size must be non-zero"@)
                },
            },
    {
        if self.chunk_size == 0 {
            return Err(invalid("chunk_size must be non-zero"));
        }
        let whole: u64 = self.transfer_bytes / self.chunk_size;
        let rest: u64 = self.transfer_bytes % self.chunk_size;
        proof {
            chunks_cover_the_transfer(self.transfer_bytes as nat, self.chunk_size as nat);
            lemma_chunks_of(
                self.transfer_bytes as nat,
                self.chunk_size as nat,
                whole as nat,
                rest as nat,
            );
        }
        if rest == 0 {
            Ok(whole)
        } else {
            Ok(whole + 1)
        }
    }

    /// The case as one line of JSON.
    pub fn to_json_line(&self) -> (line: String)
        ensures
            line@ == json::object(self.json_fields()),
    {
        let mut object = JsonObject::new();
        object.text("case_id", self.case_id.as_str());
        object.number("repeat", self.repeat as u64);
        object.text("scenario", self.scenario.as_str());
        object.text("transport", self.transport.as_str());
        object.number("bytes", self.transfer_bytes);
        object.number("chunk_size", self.chunk_size);
        object.number("window", self.window as u64);
        object.text("timing_mode", self.timing_mode.as_str());
        object.text("completion_policy", self.completion_policy.as_str());
        object.number("data_seed", self.data_seed);
        assert(object@ =~= self.json_fields());
        object.finish()
    }
}

/// The line of a case tells the case: two cases have the same line only where they are the same.
pub proof fn case_lines_tell_cases_apart(left: BenchmarkCase, right: BenchmarkCase)
    ensures
        json::object(left.json_fields()) == json::object(right.json_fields()) <==> left@ == right@,
{
    if json::object(left.json_fields()) == json::object(right.json_fields()) {
        let a = left.json_fields();
        let b = right.json_fields();
        left@.lemma_scalars();
        right@.lemma_scalars();
        json::reading::objects_tell_values_apart(a, b);
        assert(a[0].1 == b[0].1 && a[1].1 == b[1].1 && a[2].1 == b[2].1 && a[3].1 == b[3].1);
        assert(a[4].1 == b[4].1 && a[5].1 == b[5].1 && a[6].1 == b[6].1 && a[7].1 == b[7].1);
        assert(a[8].1 == b[8].1 && a[9].1 == b[9].1);
        json::reading::lemma_string_injective(left.case_id@, right.case_id@);
        json::reading::lemma_decimal_injective(left.repeat as nat, right.repeat as nat);
        json::reading::lemma_string_injective(left.scenario.name(), right.scenario.name());
        json::reading::lemma_string_injective(left.transport.name(), right.transport.name());
        json::reading::lemma_decimal_injective(
            left.transfer_bytes as nat,
            right.transfer_bytes as nat,
        );
        json::reading::lemma_decimal_injective(left.chunk_size as nat, right.chunk_size as nat);
        json::reading::lemma_decimal_injective(left.window as nat, right.window as nat);
        json::reading::lemma_string_injective(left.timing_mode.name(), right.timing_mode.name());
        json::reading::lemma_string_injective(
            left.completion_policy.name(),
            right.completion_policy.name(),
        );
        json::reading::lemma_decimal_injective(left.data_seed as nat, right.data_seed as nat);
        reveal_strlit("memory");
        reveal_strlit("file");
        reveal_strlit("tcp-userspace");
        reveal_strlit("tcp-sendfile");
        reveal_strlit("urma");
        reveal_strlit("steady-state");
        reveal_strlit("setup-included");
        reveal_strlit("buffered");
        reveal_strlit("durable");
        assert("memory"@.len() != "file"@.len());
        assert("tcp-userspace"@.len() != "tcp-sendfile"@.len());
        assert("tcp-userspace"@.len() != "urma"@.len());
        assert("tcp-sendfile"@.len() != "urma"@.len());
        assert("steady-state"@.len() != "setup-included"@.len());
        assert("buffered"@.len() != "durable"@.len());
    }
}

/// The line of a case holds no control character, whatever its name holds.
pub proof fn case_lines_stay_on_one_line(case: BenchmarkCase)
    ensures
        json::reading::is_one_line(json::object(case.json_fields())),
{
    let fields = case.json_fields();
    case@.lemma_scalars();
    assert forall|i: int| 0 <= i < fields.len() implies json::reading::is_one_line(
        #[trigger] fields[i].1,
    ) by {
        json::reading::lemma_scalar_one_line(fields[i].1);
    }
    json::reading::objects_stay_on_one_line(fields);
}

/// The chunks of a transfer are the whole ones, and one more where bytes are left over.
pub proof fn lemma_chunks_of(total: nat, chunk: nat, whole: nat, rest: nat)
    requires
        chunk > 0,
        whole == total / chunk,
        rest == total % chunk,
    ensures
        chunks_of(total, chunk) == if rest == 0 {
            whole
        } else {
            whole + 1
        },
{
    vstd::arithmetic::div_mod::lemma_fundamental_div_mod(total as int, chunk as int);
    let sum = (total + chunk - 1) as int;
    if rest == 0 {
        assert(sum == whole * chunk + (chunk - 1)) by (nonlinear_arith)
            requires
                total == chunk * whole + rest,
                rest == 0,
                sum == total + chunk - 1,
        ;
        vstd::arithmetic::div_mod::lemma_fundamental_div_mod_converse(
            sum,
            chunk as int,
            whole as int,
            chunk - 1,
        );
    } else {
        assert(sum == (whole + 1) * chunk + (rest - 1)) by (nonlinear_arith)
            requires
                total == chunk * whole + rest,
                sum == total + chunk - 1,
        ;
        vstd::arithmetic::div_mod::lemma_fundamental_div_mod_converse(
            sum,
            chunk as int,
            (whole + 1) as int,
            rest - 1,
        );
    }
}

/// The chunks of a transfer hold all of it, and one chunk less would not.
pub proof fn chunks_cover_the_transfer(total: nat, chunk: nat)
    requires
        chunk > 0,
    ensures
        total <= chunks_of(total, chunk) * chunk,
        total > 0 ==> chunks_of(total, chunk) > 0 && (chunks_of(total, chunk) - 1) * chunk < total,
        total == 0 ==> chunks_of(total, chunk) == 0,
        chunks_of(total, chunk) <= total,
{
    let whole = total / chunk;
    let rest = total % chunk;
    lemma_chunks_of(total, chunk, whole, rest);
    vstd::arithmetic::div_mod::lemma_fundamental_div_mod(total as int, chunk as int);
    assert(total <= chunks_of(total, chunk) * chunk && (total > 0 ==> chunks_of(total, chunk) > 0
        && (chunks_of(total, chunk) - 1) * chunk < total) && (total == 0 ==> chunks_of(total, chunk)
        == 0) && chunks_of(total, chunk) <= total) by (nonlinear_arith)
        requires
            chunk > 0,
            total == chunk * whole + rest,
            0 <= rest < chunk,
            chunks_of(total, chunk) == (if rest == 0 {
                whole
            } else {
                whole + 1
            }),
    ;
}

/// What was expected of a transfer and what came of it.
#[derive(Clone, Copy, Debug, Eq, PartialEq, Structural)]
pub struct IntegrityResult {
    pub expected_bytes: u64,
    pub actual_bytes: u64,
    pub expected_crc32: u32,
    pub actual_crc32: u32,
    pub length_ok: bool,
    pub digest_ok: bool,
}

impl IntegrityResult {
    /// The judgement on a length and a checksum.
    pub open spec fn judged(
        expected_bytes: u64,
        actual_bytes: u64,
        expected_crc32: u32,
        actual_crc32: u32,
    ) -> Self {
        IntegrityResult {
            expected_bytes,
            actual_bytes,
            expected_crc32,
            actual_crc32,
            length_ok: expected_bytes == actual_bytes,
            digest_ok: expected_crc32 == actual_crc32,
        }
    }

    /// The members of the result in JSON.
    pub open spec fn json_fields(self) -> Seq<(Seq<char>, Seq<char>)> {
        seq![
            ("expected_bytes"@, text::decimal(self.expected_bytes as nat)),
            ("actual_bytes"@, text::decimal(self.actual_bytes as nat)),
            ("expected_crc32"@, text::decimal(self.expected_crc32 as nat)),
            ("actual_crc32"@, text::decimal(self.actual_crc32 as nat)),
            ("length_ok"@, json::boolean(self.length_ok)),
            ("digest_ok"@, json::boolean(self.digest_ok)),
            ("ok"@, json::boolean(self.length_ok && self.digest_ok)),
        ]
    }

    /// The judgement on a length and a checksum.
    pub fn new(
        expected_bytes: u64,
        actual_bytes: u64,
        expected_crc32: u32,
        actual_crc32: u32,
    ) -> (integrity: Self)
        ensures
            integrity == Self::judged(expected_bytes, actual_bytes, expected_crc32, actual_crc32),
    {
        IntegrityResult {
            expected_bytes,
            actual_bytes,
            expected_crc32,
            actual_crc32,
            length_ok: expected_bytes == actual_bytes,
            digest_ok: expected_crc32 == actual_crc32,
        }
    }

    /// Whether both the length and the checksum are right.
    pub fn is_ok(self) -> (ok: bool)
        ensures
            ok == (self.length_ok && self.digest_ok),
    {
        self.length_ok && self.digest_ok
    }

    fn json(self) -> (json: String)
        ensures
            json@ == json::object(self.json_fields()),
    {
        let mut object = JsonObject::new();
        object.number("expected_bytes", self.expected_bytes);
        object.number("actual_bytes", self.actual_bytes);
        object.number("expected_crc32", self.expected_crc32 as u64);
        object.number("actual_crc32", self.actual_crc32 as u64);
        object.flag("length_ok", self.length_ok);
        object.flag("digest_ok", self.digest_ok);
        object.flag("ok", self.is_ok());
        assert(object@ =~= self.json_fields());
        object.finish()
    }
}

/// Processor time, in microseconds.
#[derive(Clone, Copy, Debug, Eq, PartialEq, Structural)]
pub struct CpuUsage {
    pub user_us: u64,
    pub system_us: u64,
}

impl Default for CpuUsage {
    fn default() -> (usage: Self)
        ensures
            usage == (CpuUsage { user_us: 0, system_us: 0 }),
    {
        CpuUsage { user_us: 0, system_us: 0 }
    }
}

/// Processor time in JSON; `null` where it was not measured.
pub open spec fn cpu_json(cpu: Option<CpuUsage>) -> Seq<char> {
    match cpu {
        Some(cpu) => json::object(
            seq![
                ("user_us"@, text::decimal(cpu.user_us as nat)),
                ("system_us"@, text::decimal(cpu.system_us as nat)),
            ],
        ),
        None => "null"@,
    }
}

fn json_cpu(cpu: Option<CpuUsage>) -> (json: String)
    ensures
        json@ == cpu_json(cpu),
{
    match cpu {
        Some(cpu) => {
            let mut object = JsonObject::new();
            object.number("user_us", cpu.user_us);
            object.number("system_us", cpu.system_us);
            assert(object@ =~= seq![
                ("user_us"@, text::decimal(cpu.user_us as nat)),
                ("system_us"@, text::decimal(cpu.system_us as nat)),
            ]);
            object.finish()
        },
        None => "null".to_owned(),
    }
}

/// What one measured transfer gave. Its throughput follows from `bytes` and `elapsed_ns`.
pub struct BenchmarkResult {
    pub case_id: String,
    pub repeat: u32,
    pub transport: BenchmarkTransport,
    pub scenario: BenchmarkScenario,
    pub bytes: u64,
    pub chunk_size: u64,
    pub window: u32,
    pub elapsed_ns: u64,
    pub elapsed_us: u64,
    pub integrity: IntegrityResult,
    pub timing_mode: TimingMode,
    pub completion_policy: FileCompletionPolicy,
    pub parent_cpu: Option<CpuUsage>,
    pub child_cpu: Option<CpuUsage>,
    pub transport_stats: TransportStats,
}

impl BenchmarkResult {
    /// Why a sample and an integrity result do not belong to a case, if they do not.
    pub open spec fn sample_error(
        case: BenchmarkCase,
        sample: TimingSample,
        integrity: IntegrityResult,
    ) -> Option<ErrorView> {
        if case.error() is Some {
            case.error()
        } else if sample.mode != case.timing_mode {
            Some(
                ErrorView::InvalidConfiguration(
                    "timing sample mode "@ + sample.mode.name() + " does not match case mode "@
                        + case.timing_mode.name(),
                ),
            )
        } else if integrity.expected_bytes != case.transfer_bytes {
            Some(
                ErrorView::InvalidConfiguration(
                    "integrity expected_bytes "@ + text::decimal(integrity.expected_bytes as nat)
                        + " does not match case transfer_bytes "@ + text::decimal(
                        case.transfer_bytes as nat,
                    ) + ""@,
                ),
            )
        } else if sample.elapsed > u64::MAX {
            Some(ErrorView::InvalidConfiguration("elapsed nanoseconds exceed u64"@))
        } else {
            None
        }
    }

    /// Whether the result is what a sample of a case and its judgement measured.
    pub open spec fn measures(
        self,
        case: BenchmarkCase,
        sample: TimingSample,
        integrity: IntegrityResult,
    ) -> bool {
        &&& self.case_id@ == case.case_id@
        &&& self.repeat == case.repeat
        &&& self.transport == case.transport
        &&& self.scenario == case.scenario
        &&& self.chunk_size == case.chunk_size
        &&& self.window == case.window
        &&& self.timing_mode == case.timing_mode
        &&& self.completion_policy == case.completion_policy
        &&& self.bytes == integrity.actual_bytes
        &&& self.integrity == integrity
        &&& self.elapsed_ns == sample.elapsed
        &&& self.elapsed_us == self.elapsed_ns / 1000
    }

    /// The members of the result's JSON line, with the throughput as it is to be printed.
    pub open spec fn json_fields(self, throughput_mib_s: Seq<char>, throughput_gbit_s: Seq<char>) -> Seq<
        (Seq<char>, Seq<char>),
    > {
        seq![
            ("case_id"@, json::string(self.case_id@)),
            ("repeat"@, text::decimal(self.repeat as nat)),
            ("transport"@, json::string(self.transport.name())),
            ("scenario"@, json::string(self.scenario.name())),
            ("bytes"@, text::decimal(self.bytes as nat)),
            ("chunk_size"@, text::decimal(self.chunk_size as nat)),
            ("window"@, text::decimal(self.window as nat)),
            ("elapsed_ns"@, text::decimal(self.elapsed_ns as nat)),
            ("elapsed_us"@, text::decimal(self.elapsed_us as nat)),
            ("throughput_mib_s"@, throughput_mib_s),
            ("throughput_gbit_s"@, throughput_gbit_s),
            ("timing_mode"@, json::string(self.timing_mode.name())),
            ("completion_policy"@, json::string(self.completion_policy.name())),
            ("integrity"@, json::object(self.integrity.json_fields())),
            ("parent_cpu"@, cpu_json(self.parent_cpu)),
            ("child_cpu"@, cpu_json(self.child_cpu)),
            ("transport_stats"@, json::object(stats::stats_fields(self.transport_stats@))),
        ]
    }

    /// The result of a case.
    pub fn from_sample(case: &BenchmarkCase, sample: TimingSample, integrity: IntegrityResult) -> (made:
        Result<Self>)
        ensures
            match made {
                Ok(result) => {
                    &&& Self::sample_error(*case, sample, integrity) is None
                    &&& result.measures(*case, sample, integrity)
                    &&& result.case_id@ == case.case_id@
                    &&& result.repeat == case.repeat
                    &&& result.transport == case.transport
                    &&& result.scenario == case.scenario
                    &&& result.bytes == integrity.actual_bytes
                    &&& result.chunk_size == case.chunk_size
                    &&& result.window == case.window
                    &&& result.elapsed_ns == sample.elapsed
                    &&& result.elapsed_us == sample.elapsed / 1000
                    &&& result.integrity == integrity
                    &&& result.timing_mode == case.timing_mode
                    &&& result.completion_policy == case.completion_policy
                    &&& result.parent_cpu is None && result.child_cpu is None
                    &&& result.transport_stats@.len() == 0
                    &&& result.transport_stats.wf()
                },
                Err(error) => Self::sample_error(*case, sample, integrity) == Some(error@),
            },
    {
        match case.validate() {
            Ok(()) => {},
            Err(error) => {
                return Err(error);
            },
        }
        if sample.mode != case.timing_mode {
            let mut detail = "timing sample mode ".to_owned();
            detail.append(sample.mode.as_str());
            detail.append(" does not match case mode ");
            detail.append(case.timing_mode.as_str());
            return Err(Error::InvalidConfiguration(detail));
        }
        if integrity.expected_bytes != case.transfer_bytes {
            return Err(
                Error::InvalidConfiguration(
                    with_numbers(
                        "integrity expected_bytes ",
                        integrity.expected_bytes,
                        " does not match case transfer_bytes ",
                        case.transfer_bytes,
                        "",
                    ),
                ),
            );
        }
        let elapsed_ns: u64 = match sample.elapsed_ns() {
            Ok(elapsed_ns) => elapsed_ns,
            Err(error) => {
                return Err(error);
            },
        };
        Ok(
            BenchmarkResult {
                case_id: case.case_id.as_str().to_owned(),
                repeat: case.repeat,
                transport: case.transport,
                scenario: case.scenario,
                bytes: integrity.actual_bytes,
                chunk_size: case.chunk_size,
                window: case.window,
                elapsed_ns,
                elapsed_us: elapsed_ns / 1000,
                integrity,
                timing_mode: case.timing_mode,
                completion_policy: case.completion_policy,
                parent_cpu: None,
                child_cpu: None,
                transport_stats: TransportStats::new(),
            },
        )
    }

    /// The result as one line of JSON, with the throughput as it is to be printed.
    pub fn to_json_line(&self, throughput_mib_s: &str, throughput_gbit_s: &str) -> (line: String)
        ensures
            line@ == json::object(self.json_fields(throughput_mib_s@, throughput_gbit_s@)),
    {
        let mut object = JsonObject::new();
        object.text("case_id", self.case_id.as_str());
        object.number("repeat", self.repeat as u64);
        object.text("transport", self.transport.as_str());
        object.text("scenario", self.scenario.as_str());
        object.number("bytes", self.bytes);
        object.number("chunk_size", self.chunk_size);
        object.number("window", self.window as u64);
        object.number("elapsed_ns", self.elapsed_ns);
        object.number("elapsed_us", self.elapsed_us);
        object.raw("throughput_mib_s", throughput_mib_s);
        object.raw("throughput_gbit_s", throughput_gbit_s);
        object.text("timing_mode", self.timing_mode.as_str());
        object.text("completion_policy", self.completion_policy.as_str());
        object.raw("integrity", self.integrity.json().as_str());
        object.raw("parent_cpu", json_cpu(self.parent_cpu).as_str());
        object.raw("child_cpu", json_cpu(self.child_cpu).as_str());
        object.raw("transport_stats", self.transport_stats.json().as_str());
        assert(object@ =~= self.json_fields(throughput_mib_s@, throughput_gbit_s@));
        object.finish()
    }
}

/// How long one measured transfer took, in nanoseconds.
#[derive(Clone, Copy, Debug, Eq, PartialEq, Structural)]
pub struct TimingSample {
    pub mode: TimingMode,
    pub elapsed: u128,
}

impl TimingSample {
    /// Whether the sample is the time from one moment to another.
    pub open spec fn spans(self, begun: u128, now: u128) -> bool {
        if now >= begun {
            begun + self.elapsed == now
        } else {
            self.elapsed == 0
        }
    }

    pub fn from_duration(mode: TimingMode, elapsed: u128) -> (sample: Self)
        ensures
            sample == (TimingSample { mode, elapsed }),
    {
        TimingSample { mode, elapsed }
    }

    pub fn elapsed_ns(self) -> (ns: Result<u64>)
        ensures
            match ns {
                Ok(ns) => ns == self.elapsed,
                Err(error) => {
                    &&& self.elapsed > u64::MAX
                    &&& error@ == ErrorView::InvalidConfiguration("elapsed nanoseconds exceed u64"@)
                },
            },
    {
        if self.elapsed > u64::MAX as u128 {
            return Err(invalid("elapsed nanoseconds exceed u64"));
        }
        Ok(self.elapsed as u64)
    }
}

/// A measurement that has begun.
#[derive(Debug)]
pub struct BenchmarkTimer {
    mode: TimingMode,
    started: u128,
}

impl BenchmarkTimer {
    /// The timing mode.
    pub closed spec fn timed(self) -> TimingMode {
        self.mode
    }

    /// When the measurement began.
    pub closed spec fn begun(self) -> u128 {
        self.started
    }

    /// Begins a measurement at `now`.
    pub fn start(mode: TimingMode, now: u128) -> (timer: Self)
        ensures
            timer.timed() == mode,
            timer.begun() == now,
    {
        BenchmarkTimer { mode, started: now }
    }

    pub fn mode(&self) -> (mode: TimingMode)
        ensures
            mode == self.timed(),
    {
        self.mode
    }

    /// Ends the measurement at `now`.
    pub fn finish(self, now: u128) -> (sample: TimingSample)
        ensures
            sample.mode == self.timed(),
            sample.spans(self.begun(), now),
            sample.elapsed == if now >= self.begun() {
                now - self.begun()
            } else {
                0
            },
    {
        TimingSample {
            mode: self.mode,
            elapsed: if now >= self.started {
                now - self.started
            } else {
                0
            },
        }
    }
}

} // verus!
