//! The command lines of the programs.

use vstd::prelude::*;

use crate::benchmark::{
    BenchmarkCase, BenchmarkScenario, BenchmarkTransport, CaseView, FileCompletionPolicy, TimingMode,
};
use crate::rm_read_probe::RmReadProbeConfig;
use crate::tcp_benchmark::TcpBenchmarkDestination;
use crate::text;
use crate::text::{quote, same_text};
use crate::urma_benchmark::{UrmaBenchmarkDestination, UrmaBenchmarkProfile};

pub mod laws;

verus! {

/// Which side of a run a program is.
#[derive(Clone, Copy, Debug, Eq, PartialEq, Structural)]
pub enum ProgramRole {
    Parent,
    Child,
}

/// Whether an output file may exist already.
#[derive(Clone, Copy, Debug, Eq, PartialEq, Structural)]
pub enum OutputMode {
    Fresh,
    Truncate,
}

/// What is wrong with the text of a number.
#[derive(Clone, Copy, Debug, Eq, PartialEq, Structural)]
pub enum NumberFault {
    Empty,
    InvalidDigit,
    TooLarge,
}

impl NumberFault {
    /// The fault in words.
    pub open spec fn name(self) -> Seq<char> {
        match self {
            NumberFault::Empty => "cannot parse integer from empty string"@,
            NumberFault::InvalidDigit => "invalid digit found in string"@,
            NumberFault::TooLarge => "number too large to fit in target type"@,
        }
    }

    /// The fault in words.
    pub fn as_str(self) -> (name: &'static str)
        ensures
            name@ == self.name(),
    {
        match self {
            NumberFault::Empty => "cannot parse integer from empty string",
            NumberFault::InvalidDigit => "invalid digit found in string",
            NumberFault::TooLarge => "number too large to fit in target type",
        }
    }
}

/// The number that digits stand for, or what is wrong with the first that is not one or that takes
/// the number beyond `maximum`.
pub open spec fn scanned(digits: Seq<char>, maximum: nat) -> core::result::Result<nat, NumberFault>
    decreases digits.len(),
{
    if digits.len() == 0 {
        Ok(0)
    } else {
        match scanned(digits.drop_last(), maximum) {
            Err(fault) => Err(fault),
            Ok(number) => if !text::is_decimal_digit(digits.last()) {
                Err(NumberFault::InvalidDigit)
            } else if number * 10 + (digits.last() as u32 - 48) > maximum {
                Err(NumberFault::TooLarge)
            } else {
                Ok((number * 10 + (digits.last() as u32 - 48)) as nat)
            },
        }
    }
}

/// The number that a text spells, or what is wrong with it.
pub open spec fn number_of(value: Seq<char>, maximum: nat) -> core::result::Result<nat, NumberFault> {
    if value.len() == 0 {
        Err(NumberFault::Empty)
    } else if value[0] == '+' {
        if value.len() == 1 {
            Err(NumberFault::InvalidDigit)
        } else {
            scanned(value.skip(1), maximum)
        }
    } else {
        scanned(value, maximum)
    }
}

proof fn lemma_scan_stops(digits: Seq<char>, maximum: nat, few: int)
    requires
        0 <= few <= digits.len(),
        scanned(digits.take(few), maximum) is Err,
    ensures
        scanned(digits, maximum) == scanned(digits.take(few), maximum),
    decreases digits.len() - few,
{
    if few < digits.len() {
        assert(digits.take(few + 1).drop_last() =~= digits.take(few));
        lemma_scan_stops(digits, maximum, few + 1);
    } else {
        assert(digits.take(few) =~= digits);
    }
}

/// The number that a text spells, where it spells one of at most `maximum`.
pub fn read_number(value: &str, maximum: u64) -> (number: core::result::Result<u64, NumberFault>)
    ensures
        match number {
            Ok(number) => number_of(value@, maximum as nat) == Ok::<nat, NumberFault>(
                number as nat,
            ),
            Err(fault) => number_of(value@, maximum as nat) == Err::<nat, NumberFault>(fault),
        },
{
    let length: usize = value.unicode_len();
    if length == 0 {
        return Err(NumberFault::Empty);
    }
    let start: usize = if value.get_char(0) == '+' {
        1
    } else {
        0
    };
    if start == length {
        return Err(NumberFault::InvalidDigit);
    }
    let ghost digits = value@.skip(start as int);
    let mut number: u64 = 0;
    let mut index: usize = start;
    proof {
        assert(digits.take(0) =~= Seq::<char>::empty());
        assert(start == 0 ==> digits =~= value@);
    }
    while index < length
        invariant
            start <= index <= length,
            start <= 1,
            length == value@.len(),
            digits == value@.skip(start as int),
            number <= maximum,
            scanned(digits.take(index - start), maximum as nat) == Ok::<nat, NumberFault>(
                number as nat,
            ),
            number_of(value@, maximum as nat) == scanned(digits, maximum as nat),
        decreases length - index,
    {
        let ch = value.get_char(index);
        let code: u32 = ch as u32;
        proof {
            let longer = digits.take(index - start + 1);
            assert(longer.drop_last() =~= digits.take(index - start));
            assert(longer.last() == ch);
            if scanned(longer, maximum as nat) is Err {
                lemma_scan_stops(digits, maximum as nat, index - start + 1);
            }
        }
        if code < 48 || code > 57 {
            return Err(NumberFault::InvalidDigit);
        }
        let next: u128 = number as u128 * 10 + (code - 48) as u128;
        if next > maximum as u128 {
            return Err(NumberFault::TooLarge);
        }
        number = next as u64;
        index += 1;
    }
    assert(digits.take(digits.len() as int) =~= digits);
    Ok(number)
}

/// The text for a number that cannot be read.
pub open spec fn invalid_value(option: Seq<char>, fault: NumberFault) -> Seq<char> {
    "invalid value for "@ + option + ": "@ + fault.name()
}

fn parse_number(option: &str, value: &str, maximum: u64) -> (number: core::result::Result<
    u64,
    String,
>)
    ensures
        match number {
            Ok(number) => number_of(value@, maximum as nat) == Ok::<nat, NumberFault>(
                number as nat,
            ) && number <= maximum,
            Err(detail) => {
                &&& number_of(value@, maximum as nat) matches Err(fault)
                &&& detail@ == invalid_value(option@, fault)
            },
        },
{
    match read_number(value, maximum) {
        Ok(number) => {
            proof {
                lemma_number_bound(value@, maximum as nat);
            }
            Ok(number)
        },
        Err(fault) => {
            let mut detail = "invalid value for ".to_owned();
            detail.append(option);
            detail.append(": ");
            detail.append(fault.as_str());
            Err(detail)
        },
    }
}

proof fn lemma_scan_bound(digits: Seq<char>, maximum: nat)
    ensures
        scanned(digits, maximum) matches Ok(number) ==> number <= maximum,
    decreases digits.len(),
{
}

proof fn lemma_number_bound(value: Seq<char>, maximum: nat)
    ensures
        number_of(value, maximum) matches Ok(number) ==> number <= maximum,
{
    lemma_scan_bound(value, maximum);
    lemma_scan_bound(value.skip(1), maximum);
}

/// What the benchmark program was asked for.
#[derive(Debug, Eq, PartialEq)]
pub struct BenchmarkOptions {
    pub dry_run: bool,
    pub role: Option<ProgramRole>,
    pub case_id: String,
    pub repeat: u32,
    pub scenario: BenchmarkScenario,
    pub transport: BenchmarkTransport,
    pub bytes: u64,
    pub chunk_size: u64,
    pub window: u32,
    pub timing_mode: TimingMode,
    pub completion_policy: FileCompletionPolicy,
    pub data_seed: u64,
    pub listen: String,
    pub parent: String,
    pub input: Option<String>,
    pub output: Option<String>,
    pub output_mode: OutputMode,
    pub cleanup_output: bool,
    pub device: String,
    pub eid_index: u32,
    pub urma_profile: String,
    pub urma_post_list: usize,
    pub crc_workers: Option<usize>,
}

/// [`BenchmarkOptions`] with their texts as character sequences.
pub struct OptionsView {
    pub dry_run: bool,
    pub role: Option<ProgramRole>,
    pub case_id: Seq<char>,
    pub repeat: u32,
    pub scenario: BenchmarkScenario,
    pub transport: BenchmarkTransport,
    pub bytes: u64,
    pub chunk_size: u64,
    pub window: u32,
    pub timing_mode: TimingMode,
    pub completion_policy: FileCompletionPolicy,
    pub data_seed: u64,
    pub listen: Seq<char>,
    pub parent: Seq<char>,
    pub input: Option<Seq<char>>,
    pub output: Option<Seq<char>>,
    pub output_mode: OutputMode,
    pub cleanup_output: bool,
    pub device: Seq<char>,
    pub eid_index: u32,
    pub urma_profile: Seq<char>,
    pub urma_post_list: usize,
    pub crc_workers: Option<usize>,
}

/// The text, or none.
pub open spec fn optional_view(value: Option<String>) -> Option<Seq<char>> {
    match value {
        Some(value) => Some(value@),
        None => None,
    }
}

impl View for BenchmarkOptions {
    type V = OptionsView;

    open spec fn view(&self) -> OptionsView {
        OptionsView {
            dry_run: self.dry_run,
            role: self.role,
            case_id: self.case_id@,
            repeat: self.repeat,
            scenario: self.scenario,
            transport: self.transport,
            bytes: self.bytes,
            chunk_size: self.chunk_size,
            window: self.window,
            timing_mode: self.timing_mode,
            completion_policy: self.completion_policy,
            data_seed: self.data_seed,
            listen: self.listen@,
            parent: self.parent@,
            input: optional_view(self.input),
            output: optional_view(self.output),
            output_mode: self.output_mode,
            cleanup_output: self.cleanup_output,
            device: self.device@,
            eid_index: self.eid_index,
            urma_profile: self.urma_profile@,
            urma_post_list: self.urma_post_list,
            crc_workers: self.crc_workers,
        }
    }
}

impl OptionsView {
    /// The options where nothing was asked for.
    pub open spec fn defaults() -> Self {
        OptionsView {
            dry_run: false,
            role: None,
            case_id: "benchmark-case"@,
            repeat: 1,
            scenario: BenchmarkScenario::Memory,
            transport: BenchmarkTransport::TcpUserspace,
            bytes: 0,
            chunk_size: 65536,
            window: 128,
            timing_mode: TimingMode::SteadyState,
            completion_policy: FileCompletionPolicy::Buffered,
            data_seed: 0,
            listen: "127.0.0.1:19091"@,
            parent: "127.0.0.1:19091"@,
            input: None,
            output: None,
            output_mode: OutputMode::Fresh,
            cleanup_output: false,
            device: "urma0"@,
            eid_index: 0,
            urma_profile: "normal"@,
            urma_post_list: 16,
            crc_workers: None,
        }
    }

    /// The case that is asked for.
    pub open spec fn case(self) -> CaseView {
        CaseView {
            case_id: self.case_id,
            repeat: self.repeat,
            scenario: self.scenario,
            transport: self.transport,
            transfer_bytes: self.bytes,
            chunk_size: self.chunk_size,
            window: self.window,
            timing_mode: self.timing_mode,
            completion_policy: self.completion_policy,
            data_seed: self.data_seed,
        }
    }
}

impl Default for BenchmarkOptions {
    fn default() -> (options: Self)
        ensures
            options@ == OptionsView::defaults(),
    {
        BenchmarkOptions {
            dry_run: false,
            role: None,
            case_id: "benchmark-case".to_owned(),
            repeat: 1,
            scenario: BenchmarkScenario::Memory,
            transport: BenchmarkTransport::TcpUserspace,
            bytes: 0,
            chunk_size: 65536,
            window: 128,
            timing_mode: TimingMode::SteadyState,
            completion_policy: FileCompletionPolicy::Buffered,
            data_seed: 0,
            listen: "127.0.0.1:19091".to_owned(),
            parent: "127.0.0.1:19091".to_owned(),
            input: None,
            output: None,
            output_mode: OutputMode::Fresh,
            cleanup_output: false,
            device: "urma0".to_owned(),
            eid_index: 0,
            urma_profile: "normal".to_owned(),
            urma_post_list: 16,
            crc_workers: None,
        }
    }
}

/// Whether an argument is an option that a value follows.
pub open spec fn takes_value(option: Seq<char>) -> bool {
    option == "--role"@
    || option == "--case-id"@
    || option == "--repeat"@
    || option == "--scenario"@
    || option == "--transport"@
    || option == "--bytes"@
    || option == "--chunk-size"@
    || option == "--window"@
    || option == "--timing-mode"@
    || option == "--completion-policy"@
    || option == "--seed"@
    || option == "--listen"@
    || option == "--parent"@
    || option == "--input"@
    || option == "--output"@
    || option == "--output-mode"@
    || option == "--device"@
    || option == "--eid-index"@
    || option == "--urma-profile"@
    || option == "--urma-post-list"@
    || option == "--crc-workers"@
}

/// The options with one more set, or why its value is refused.
pub open spec fn applied(options: OptionsView, option: Seq<char>, value: Seq<char>) -> core::result::Result<
    OptionsView,
    Seq<char>,
> {
    if option == "--role"@ {
        if value == "parent"@ {
            Ok(OptionsView { role: Some(ProgramRole::Parent), ..options })
        } else if value == "child"@ {
            Ok(OptionsView { role: Some(ProgramRole::Child), ..options })
        } else {
            Err("invalid --role "@ + text::quoted(value))
        }
    } else if option == "--case-id"@ {
        Ok(OptionsView { case_id: value, ..options })
    } else if option == "--repeat"@ {
        match number_of(value, u32::MAX as nat) {
            Err(fault) => Err(invalid_value(option, fault)),
            Ok(number) => Ok(OptionsView { repeat: number as u32, ..options }),
        }
    } else if option == "--scenario"@ {
        match BenchmarkScenario::parse(value) {
            Err(error) => Err(error.text()),
            Ok(parsed) => Ok(OptionsView { scenario: parsed, ..options }),
        }
    } else if option == "--transport"@ {
        match BenchmarkTransport::parse(value) {
            Err(error) => Err(error.text()),
            Ok(parsed) => Ok(OptionsView { transport: parsed, ..options }),
        }
    } else if option == "--bytes"@ {
        match number_of(value, u64::MAX as nat) {
            Err(fault) => Err(invalid_value(option, fault)),
            Ok(number) => Ok(OptionsView { bytes: number as u64, ..options }),
        }
    } else if option == "--chunk-size"@ {
        match number_of(value, u64::MAX as nat) {
            Err(fault) => Err(invalid_value(option, fault)),
            Ok(number) => Ok(OptionsView { chunk_size: number as u64, ..options }),
        }
    } else if option == "--window"@ {
        match number_of(value, u32::MAX as nat) {
            Err(fault) => Err(invalid_value(option, fault)),
            Ok(number) => Ok(OptionsView { window: number as u32, ..options }),
        }
    } else if option == "--timing-mode"@ {
        match TimingMode::parse(value) {
            Err(error) => Err(error.text()),
            Ok(parsed) => Ok(OptionsView { timing_mode: parsed, ..options }),
        }
    } else if option == "--completion-policy"@ {
        match FileCompletionPolicy::parse(value) {
            Err(error) => Err(error.text()),
            Ok(parsed) => Ok(OptionsView { completion_policy: parsed, ..options }),
        }
    } else if option == "--seed"@ {
        match number_of(value, u64::MAX as nat) {
            Err(fault) => Err(invalid_value(option, fault)),
            Ok(number) => Ok(OptionsView { data_seed: number as u64, ..options }),
        }
    } else if option == "--listen"@ {
        Ok(OptionsView { listen: value, ..options })
    } else if option == "--parent"@ {
        Ok(OptionsView { parent: value, ..options })
    } else if option == "--input"@ {
        Ok(OptionsView { input: Some(value), ..options })
    } else if option == "--output"@ {
        Ok(OptionsView { output: Some(value), ..options })
    } else if option == "--output-mode"@ {
        if value == "fresh"@ {
            Ok(OptionsView { output_mode: OutputMode::Fresh, ..options })
        } else if value == "truncate"@ {
            Ok(OptionsView { output_mode: OutputMode::Truncate, ..options })
        } else {
            Err("invalid --output-mode "@ + text::quoted(value))
        }
    } else if option == "--device"@ {
        Ok(OptionsView { device: value, ..options })
    } else if option == "--eid-index"@ {
        match number_of(value, u32::MAX as nat) {
            Err(fault) => Err(invalid_value(option, fault)),
            Ok(number) => Ok(OptionsView { eid_index: number as u32, ..options }),
        }
    } else if option == "--urma-profile"@ {
        Ok(OptionsView { urma_profile: value, ..options })
    } else if option == "--urma-post-list"@ {
        match number_of(value, usize::MAX as nat) {
            Err(fault) => Err(invalid_value(option, fault)),
            Ok(number) => Ok(OptionsView { urma_post_list: number as usize, ..options }),
        }
    } else if option == "--crc-workers"@ {
        match number_of(value, usize::MAX as nat) {
            Err(fault) => Err(invalid_value(option, fault)),
            Ok(number) => Ok(OptionsView { crc_workers: Some(number as usize), ..options }),
        }
    } else {
        Ok(options)
    }
}

/// What a command line asks for.
pub enum Command {
    Help,
    Run(BenchmarkOptions),
}

/// A [`Command`] with its texts as character sequences.
pub enum CommandView {
    Help,
    Run(OptionsView),
}

impl View for Command {
    type V = CommandView;

    open spec fn view(&self) -> CommandView {
        match self {
            Command::Help => CommandView::Help,
            Command::Run(options) => CommandView::Run(options@),
        }
    }
}

/// What the rest of a command line asks for, or why it is refused.
pub open spec fn parsed(args: Seq<Seq<char>>, options: OptionsView) -> core::result::Result<
    CommandView,
    Seq<char>,
>
    decreases args.len(),
{
    if args.len() == 0 {
        Ok(CommandView::Run(options))
    } else {
        let option = args[0];
        if option == "--dry-run"@ {
            parsed(args.skip(1), OptionsView { dry_run: true, ..options })
        } else if option == "--cleanup-output"@ {
            parsed(args.skip(1), OptionsView { cleanup_output: true, ..options })
        } else if option == "--help"@ || option == "-h"@ {
            Ok(CommandView::Help)
        } else if takes_value(option) {
            if args.len() == 1 {
                Err(option + " requires a value"@)
            } else {
                match applied(options, option, args[1]) {
                    Err(detail) => Err(detail),
                    Ok(changed) => parsed(args.skip(2), changed),
                }
            }
        } else {
            Err("unknown argument "@ + text::quoted(option) + "; use --help"@)
        }
    }
}

fn wants_value(option: &str) -> (wants: bool)
    ensures
        wants == takes_value(option@),
{
    if same_text(option, "--role") {
        return true;
    }
    if same_text(option, "--case-id") {
        return true;
    }
    if same_text(option, "--repeat") {
        return true;
    }
    if same_text(option, "--scenario") {
        return true;
    }
    if same_text(option, "--transport") {
        return true;
    }
    if same_text(option, "--bytes") {
        return true;
    }
    if same_text(option, "--chunk-size") {
        return true;
    }
    if same_text(option, "--window") {
        return true;
    }
    if same_text(option, "--timing-mode") {
        return true;
    }
    if same_text(option, "--completion-policy") {
        return true;
    }
    if same_text(option, "--seed") {
        return true;
    }
    if same_text(option, "--listen") {
        return true;
    }
    if same_text(option, "--parent") {
        return true;
    }
    if same_text(option, "--input") {
        return true;
    }
    if same_text(option, "--output") {
        return true;
    }
    if same_text(option, "--output-mode") {
        return true;
    }
    if same_text(option, "--device") {
        return true;
    }
    if same_text(option, "--eid-index") {
        return true;
    }
    if same_text(option, "--urma-profile") {
        return true;
    }
    if same_text(option, "--urma-post-list") {
        return true;
    }
    if same_text(option, "--crc-workers") {
        return true;
    }
    false
}

fn apply(options: &mut BenchmarkOptions, option: &str, value: &str) -> (changed: core::result::Result<
    (),
    String,
>)
    ensures
        match changed {
            Ok(()) => applied(old(options)@, option@, value@) == Ok::<OptionsView, Seq<char>>(
                final(options)@,
            ),
            Err(detail) => applied(old(options)@, option@, value@) == Err::<OptionsView, Seq<char>>(
                detail@,
            ),
        },
{
    if same_text(option, "--role") {
        if same_text(value, "parent") {
            options.role = Some(ProgramRole::Parent);
        } else if same_text(value, "child") {
            options.role = Some(ProgramRole::Child);
        } else {
            let mut detail = "invalid --role ".to_owned();
            detail.append(quote(value).as_str());
            return Err(detail);
        }
        return Ok(());
    }
    if same_text(option, "--case-id") {
        options.case_id = value.to_owned();
        return Ok(());
    }
    if same_text(option, "--repeat") {
        match parse_number(option, value, 0xffff_ffff) {
            Ok(number) => {
                options.repeat = number as u32;
                return Ok(());
            },
            Err(detail) => {
                return Err(detail);
            },
        }
    }
    if same_text(option, "--scenario") {
        match BenchmarkScenario::from_str(value) {
            Ok(parsed) => {
                options.scenario = parsed;
                return Ok(());
            },
            Err(error) => {
                return Err(error.to_string());
            },
        }
    }
    if same_text(option, "--transport") {
        match BenchmarkTransport::from_str(value) {
            Ok(parsed) => {
                options.transport = parsed;
                return Ok(());
            },
            Err(error) => {
                return Err(error.to_string());
            },
        }
    }
    if same_text(option, "--bytes") {
        match parse_number(option, value, 0xffff_ffff_ffff_ffff) {
            Ok(number) => {
                options.bytes = number as u64;
                return Ok(());
            },
            Err(detail) => {
                return Err(detail);
            },
        }
    }
    if same_text(option, "--chunk-size") {
        match parse_number(option, value, 0xffff_ffff_ffff_ffff) {
            Ok(number) => {
                options.chunk_size = number as u64;
                return Ok(());
            },
            Err(detail) => {
                return Err(detail);
            },
        }
    }
    if same_text(option, "--window") {
        match parse_number(option, value, 0xffff_ffff) {
            Ok(number) => {
                options.window = number as u32;
                return Ok(());
            },
            Err(detail) => {
                return Err(detail);
            },
        }
    }
    if same_text(option, "--timing-mode") {
        match TimingMode::from_str(value) {
            Ok(parsed) => {
                options.timing_mode = parsed;
                return Ok(());
            },
            Err(error) => {
                return Err(error.to_string());
            },
        }
    }
    if same_text(option, "--completion-policy") {
        match FileCompletionPolicy::from_str(value) {
            Ok(parsed) => {
                options.completion_policy = parsed;
                return Ok(());
            },
            Err(error) => {
                return Err(error.to_string());
            },
        }
    }
    if same_text(option, "--seed") {
        match parse_number(option, value, 0xffff_ffff_ffff_ffff) {
            Ok(number) => {
                options.data_seed = number as u64;
                return Ok(());
            },
            Err(detail) => {
                return Err(detail);
            },
        }
    }
    if same_text(option, "--listen") {
        options.listen = value.to_owned();
        return Ok(());
    }
    if same_text(option, "--parent") {
        options.parent = value.to_owned();
        return Ok(());
    }
    if same_text(option, "--input") {
        options.input = Some(value.to_owned());
        return Ok(());
    }
    if same_text(option, "--output") {
        options.output = Some(value.to_owned());
        return Ok(());
    }
    if same_text(option, "--output-mode") {
        if same_text(value, "fresh") {
            options.output_mode = OutputMode::Fresh;
        } else if same_text(value, "truncate") {
            options.output_mode = OutputMode::Truncate;
        } else {
            let mut detail = "invalid --output-mode ".to_owned();
            detail.append(quote(value).as_str());
            return Err(detail);
        }
        return Ok(());
    }
    if same_text(option, "--device") {
        options.device = value.to_owned();
        return Ok(());
    }
    if same_text(option, "--eid-index") {
        match parse_number(option, value, 0xffff_ffff) {
            Ok(number) => {
                options.eid_index = number as u32;
                return Ok(());
            },
            Err(detail) => {
                return Err(detail);
            },
        }
    }
    if same_text(option, "--urma-profile") {
        options.urma_profile = value.to_owned();
        return Ok(());
    }
    if same_text(option, "--urma-post-list") {
        match parse_number(option, value, usize::MAX as u64) {
            Ok(number) => {
                options.urma_post_list = number as usize;
                return Ok(());
            },
            Err(detail) => {
                return Err(detail);
            },
        }
    }
    if same_text(option, "--crc-workers") {
        match parse_number(option, value, usize::MAX as u64) {
            Ok(number) => {
                options.crc_workers = Some(number as usize);
                return Ok(());
            },
            Err(detail) => {
                return Err(detail);
            },
        }
    }
    Ok(())
}

/// What a command line asks for.
pub fn parse_benchmark_args(args: &Vec<String>) -> (command: core::result::Result<Command, String>)
    ensures
        match command {
            Ok(command) => parsed(text::views(args@), OptionsView::defaults()) == Ok::<
                CommandView,
                Seq<char>,
            >(command@),
            Err(detail) => parsed(text::views(args@), OptionsView::defaults()) == Err::<
                CommandView,
                Seq<char>,
            >(detail@),
        },
{
    let ghost views = text::views(args@);
    let mut options = BenchmarkOptions::default();
    let mut index: usize = 0;
    assert(views.skip(0) =~= views);
    while index < args.len()
        invariant
            views == text::views(args@),
            index <= args@.len(),
            parsed(views, OptionsView::defaults()) == parsed(views.skip(index as int), options@),
        decreases args@.len() - index,
    {
        let option = args[index].as_str();
        let ghost rest = views.skip(index as int);
        proof {
            assert(rest[0] == option@);
            assert(rest.skip(1) =~= views.skip(index + 1));
            if index + 1 < args@.len() {
                assert(rest[1] == args@[index + 1]@);
                assert(rest.skip(2) =~= views.skip(index + 2));
            }
        }
        if same_text(option, "--dry-run") {
            options.dry_run = true;
            index += 1;
        } else if same_text(option, "--cleanup-output") {
            options.cleanup_output = true;
            index += 1;
        } else if same_text(option, "--help") || same_text(option, "-h") {
            return Ok(Command::Help);
        } else if wants_value(option) {
            if index + 1 == args.len() {
                let mut detail = option.to_owned();
                detail.append(" requires a value");
                return Err(detail);
            }
            match apply(&mut options, option, args[index + 1].as_str()) {
                Ok(()) => {},
                Err(detail) => {
                    return Err(detail);
                },
            }
            index += 2;
        } else {
            let mut detail = "unknown argument ".to_owned();
            detail.append(quote(option).as_str());
            detail.append("; use --help");
            return Err(detail);
        }
    }
    assert(views.skip(index as int) =~= Seq::<Seq<char>>::empty());
    Ok(Command::Run(options))
}

/// Where an URMA run takes its bytes from.
#[derive(Debug, Eq, PartialEq)]
pub enum UrmaInput {
    /// One payload over and over.
    Fixed,
    /// The payload of the case's seed.
    Generated,
    /// The file at a path.
    File(String),
}

/// What the benchmark program does.
pub enum BenchmarkPlan {
    /// Prints the case.
    DryRun(String),
    /// Sends from memory, or from the file at `input`.
    TcpParent { case: BenchmarkCase, listen: String, input: Option<String> },
    /// Receives, and may remove the output afterwards.
    TcpChild {
        case: BenchmarkCase,
        parent: String,
        destination: TcpBenchmarkDestination,
        cleanup: bool,
    },
    /// Sends over URMA.
    UrmaParent {
        case: BenchmarkCase,
        device: String,
        eid_index: u32,
        listen: String,
        source: UrmaInput,
        profile: UrmaBenchmarkProfile,
        post_list: usize,
    },
    /// Receives over URMA, and may remove the output afterwards.
    UrmaChild {
        case: BenchmarkCase,
        device: String,
        eid_index: u32,
        parent: String,
        destination: UrmaBenchmarkDestination,
        profile: UrmaBenchmarkProfile,
        crc_workers: Option<usize>,
        cleanup: bool,
    },
}

/// A destination with its path as a character sequence.
pub enum DestinationView {
    Memory,
    File(Seq<char>),
    FreshFile(Seq<char>),
}

/// The view of a destination of a TCP run.
pub open spec fn tcp_destination(destination: TcpBenchmarkDestination) -> DestinationView {
    match destination {
        TcpBenchmarkDestination::Memory => DestinationView::Memory,
        TcpBenchmarkDestination::File(path) => DestinationView::File(path@),
        TcpBenchmarkDestination::FreshFile(path) => DestinationView::FreshFile(path@),
    }
}

/// The view of a destination of an URMA run.
pub open spec fn urma_destination(destination: UrmaBenchmarkDestination) -> DestinationView {
    match destination {
        UrmaBenchmarkDestination::Memory => DestinationView::Memory,
        UrmaBenchmarkDestination::File(path) => DestinationView::File(path@),
        UrmaBenchmarkDestination::FreshFile(path) => DestinationView::FreshFile(path@),
    }
}

/// An [`UrmaInput`] with its path as a character sequence.
pub enum UrmaInputView {
    Fixed,
    Generated,
    File(Seq<char>),
}

impl View for UrmaInput {
    type V = UrmaInputView;

    open spec fn view(&self) -> UrmaInputView {
        match self {
            UrmaInput::Fixed => UrmaInputView::Fixed,
            UrmaInput::Generated => UrmaInputView::Generated,
            UrmaInput::File(path) => UrmaInputView::File(path@),
        }
    }
}

/// A [`BenchmarkPlan`] with its texts as character sequences.
pub enum PlanView {
    DryRun(Seq<char>),
    TcpParent { case: CaseView, listen: Seq<char>, input: Option<Seq<char>> },
    TcpChild { case: CaseView, parent: Seq<char>, destination: DestinationView, cleanup: bool },
    UrmaParent {
        case: CaseView,
        device: Seq<char>,
        eid_index: u32,
        listen: Seq<char>,
        source: UrmaInputView,
        profile: UrmaBenchmarkProfile,
        post_list: usize,
    },
    UrmaChild {
        case: CaseView,
        device: Seq<char>,
        eid_index: u32,
        parent: Seq<char>,
        destination: DestinationView,
        profile: UrmaBenchmarkProfile,
        crc_workers: Option<usize>,
        cleanup: bool,
    },
}

impl View for BenchmarkPlan {
    type V = PlanView;

    open spec fn view(&self) -> PlanView {
        match self {
            BenchmarkPlan::DryRun(line) => PlanView::DryRun(line@),
            BenchmarkPlan::TcpParent { case, listen, input } => PlanView::TcpParent {
                case: case@,
                listen: listen@,
                input: optional_view(*input),
            },
            BenchmarkPlan::TcpChild { case, parent, destination, cleanup } => PlanView::TcpChild {
                case: case@,
                parent: parent@,
                destination: tcp_destination(*destination),
                cleanup: *cleanup,
            },
            BenchmarkPlan::UrmaParent {
                case,
                device,
                eid_index,
                listen,
                source,
                profile,
                post_list,
            } => PlanView::UrmaParent {
                case: case@,
                device: device@,
                eid_index: *eid_index,
                listen: listen@,
                source: source@,
                profile: *profile,
                post_list: *post_list,
            },
            BenchmarkPlan::UrmaChild {
                case,
                device,
                eid_index,
                parent,
                destination,
                profile,
                crc_workers,
                cleanup,
            } => PlanView::UrmaChild {
                case: case@,
                device: device@,
                eid_index: *eid_index,
                parent: parent@,
                destination: urma_destination(*destination),
                profile: *profile,
                crc_workers: *crc_workers,
                cleanup: *cleanup,
            },
        }
    }
}

/// The profile that a text names, or why it is refused.
pub open spec fn profile_of(value: Seq<char>) -> core::result::Result<
    UrmaBenchmarkProfile,
    Seq<char>,
> {
    if value == "normal"@ {
        Ok(UrmaBenchmarkProfile::Normal)
    } else if value == "fixed-tx"@ {
        Ok(UrmaBenchmarkProfile::FixedTx)
    } else if value == "rx128"@ {
        Ok(UrmaBenchmarkProfile::Rx128)
    } else if value == "fixed-tx-rx128"@ {
        Ok(UrmaBenchmarkProfile::FixedTxRx128)
    } else if value == "transport-only"@ {
        Ok(UrmaBenchmarkProfile::TransportOnly)
    } else if value == "fixed-tx-transport-only"@ {
        Ok(UrmaBenchmarkProfile::FixedTxTransportOnly)
    } else {
        Err("invalid --urma-profile "@ + text::quoted(value))
    }
}

/// The profile that a text names.
pub fn parse_profile(value: &str) -> (profile: core::result::Result<UrmaBenchmarkProfile, String>)
    ensures
        match profile {
            Ok(profile) => profile_of(value@) == Ok::<UrmaBenchmarkProfile, Seq<char>>(profile),
            Err(detail) => profile_of(value@) == Err::<UrmaBenchmarkProfile, Seq<char>>(detail@),
        },
{
    if same_text(value, "normal") {
        Ok(UrmaBenchmarkProfile::Normal)
    } else if same_text(value, "fixed-tx") {
        Ok(UrmaBenchmarkProfile::FixedTx)
    } else if same_text(value, "rx128") {
        Ok(UrmaBenchmarkProfile::Rx128)
    } else if same_text(value, "fixed-tx-rx128") {
        Ok(UrmaBenchmarkProfile::FixedTxRx128)
    } else if same_text(value, "transport-only") {
        Ok(UrmaBenchmarkProfile::TransportOnly)
    } else if same_text(value, "fixed-tx-transport-only") {
        Ok(UrmaBenchmarkProfile::FixedTxTransportOnly)
    } else {
        let mut detail = "invalid --urma-profile ".to_owned();
        detail.append(quote(value).as_str());
        Err(detail)
    }
}

impl OptionsView {
    /// The file that a sender reads, or why none is named.
    pub open spec fn input_path(self) -> core::result::Result<Seq<char>, Seq<char>> {
        match self.input {
            Some(path) => Ok(path),
            None => Err("file Parent requires --input PATH"@),
        }
    }

    /// Where a receiver puts the bytes, or why it cannot.
    pub open spec fn destination(self) -> core::result::Result<DestinationView, Seq<char>> {
        match self.scenario {
            BenchmarkScenario::Memory => Ok(DestinationView::Memory),
            BenchmarkScenario::File => match self.output {
                None => Err("file Child requires --output PATH"@),
                Some(path) => match self.output_mode {
                    OutputMode::Fresh => Ok(DestinationView::FreshFile(path)),
                    OutputMode::Truncate => Ok(DestinationView::File(path)),
                },
            },
        }
    }

    /// What an URMA case comes to, or why it is refused.
    pub open spec fn urma_plan(self, role: ProgramRole) -> core::result::Result<
        PlanView,
        Seq<char>,
    > {
        match profile_of(self.urma_profile) {
            Err(detail) => Err(detail),
            Ok(profile) => match role {
                ProgramRole::Parent => {
                    let source = match self.scenario {
                        BenchmarkScenario::Memory => Ok(
                            if profile.fixed() {
                                UrmaInputView::Fixed
                            } else {
                                UrmaInputView::Generated
                            },
                        ),
                        BenchmarkScenario::File => match self.input_path() {
                            Ok(path) => Ok(UrmaInputView::File(path)),
                            Err(detail) => Err(detail),
                        },
                    };
                    match source {
                        Err(detail) => Err(detail),
                        Ok(source) => Ok(
                            PlanView::UrmaParent {
                                case: self.case(),
                                device: self.device,
                                eid_index: self.eid_index,
                                listen: self.listen,
                                source,
                                profile,
                                post_list: self.urma_post_list,
                            },
                        ),
                    }
                },
                ProgramRole::Child => match self.destination() {
                    Err(detail) => Err(detail),
                    Ok(destination) => Ok(
                        PlanView::UrmaChild {
                            case: self.case(),
                            device: self.device,
                            eid_index: self.eid_index,
                            parent: self.parent,
                            destination,
                            profile,
                            crc_workers: self.crc_workers,
                            cleanup: self.cleanup_output,
                        },
                    ),
                },
            },
        }
    }

    /// What a TCP case comes to, or why it is refused.
    pub open spec fn tcp_plan(self, role: ProgramRole) -> core::result::Result<
        PlanView,
        Seq<char>,
    > {
        match role {
            ProgramRole::Parent => match self.scenario {
                BenchmarkScenario::Memory => Ok(
                    PlanView::TcpParent { case: self.case(), listen: self.listen, input: None },
                ),
                BenchmarkScenario::File => match self.input_path() {
                    Err(detail) => Err(detail),
                    Ok(path) => Ok(
                        PlanView::TcpParent {
                            case: self.case(),
                            listen: self.listen,
                            input: Some(path),
                        },
                    ),
                },
            },
            ProgramRole::Child => match self.destination() {
                Err(detail) => Err(detail),
                Ok(destination) => Ok(
                    PlanView::TcpChild {
                        case: self.case(),
                        parent: self.parent,
                        destination,
                        cleanup: self.cleanup_output,
                    },
                ),
            },
        }
    }

    /// What the options come to, or why they are refused. `has_provider` says whether URMA cases can
    /// run.
    pub open spec fn plan(self, has_provider: bool) -> core::result::Result<PlanView, Seq<char>> {
        let case = self.case();
        if case.error() is Some {
            Err(case.error()->0.text())
        } else if self.dry_run {
            Ok(PlanView::DryRun(crate::json::object(case.json_fields())))
        } else if self.role is None {
            Err("benchmark requires --role parent or --role child"@)
        } else if self.cleanup_output && (self.role != Some(ProgramRole::Child) || self.scenario
            != BenchmarkScenario::File) {
            Err("--cleanup-output requires --role child --scenario file"@)
        } else if self.transport != BenchmarkTransport::Urma {
            self.tcp_plan(self.role->0)
        } else if has_provider {
            self.urma_plan(self.role->0)
        } else {
            Err("URMA benchmark requires --features urma"@)
        }
    }
}

fn named_input(input: Option<String>) -> (named: core::result::Result<String, String>)
    ensures
        match named {
            Ok(path) => optional_view(input) == Some(path@),
            Err(detail) => {
                &&& optional_view(input) is None
                &&& detail@ == "file Parent requires --input PATH"@
            },
        },
{
    match input {
        Some(path) => Ok(path),
        None => Err("file Parent requires --input PATH".to_owned()),
    }
}

fn named_output(output: Option<String>) -> (named: core::result::Result<String, String>)
    ensures
        match named {
            Ok(path) => optional_view(output) == Some(path@),
            Err(detail) => {
                &&& optional_view(output) is None
                &&& detail@ == "file Child requires --output PATH"@
            },
        },
{
    match output {
        Some(path) => Ok(path),
        None => Err("file Child requires --output PATH".to_owned()),
    }
}

fn plan_tcp(options: BenchmarkOptions, case: BenchmarkCase, role: ProgramRole) -> (plan: core::result::Result<
    BenchmarkPlan,
    String,
>)
    requires
        case@ == options@.case(),
    ensures
        match plan {
            Ok(plan) => options@.tcp_plan(role) == Ok::<PlanView, Seq<char>>(plan@),
            Err(detail) => options@.tcp_plan(role) == Err::<PlanView, Seq<char>>(detail@),
        },
{
    match role {
        ProgramRole::Parent => {
            let input = match case.scenario {
                BenchmarkScenario::Memory => None,
                BenchmarkScenario::File => match named_input(options.input) {
                    Ok(path) => Some(path),
                    Err(detail) => {
                        return Err(detail);
                    },
                },
            };
            Ok(BenchmarkPlan::TcpParent { case, listen: options.listen, input })
        },
        ProgramRole::Child => {
            let destination = match case.scenario {
                BenchmarkScenario::Memory => TcpBenchmarkDestination::Memory,
                BenchmarkScenario::File => match named_output(options.output) {
                    Ok(path) => match options.output_mode {
                        OutputMode::Fresh => TcpBenchmarkDestination::FreshFile(path),
                        OutputMode::Truncate => TcpBenchmarkDestination::File(path),
                    },
                    Err(detail) => {
                        return Err(detail);
                    },
                },
            };
            Ok(
                BenchmarkPlan::TcpChild {
                    case,
                    parent: options.parent,
                    destination,
                    cleanup: options.cleanup_output,
                },
            )
        },
    }
}

fn plan_urma(options: BenchmarkOptions, case: BenchmarkCase, role: ProgramRole) -> (plan: core::result::Result<
    BenchmarkPlan,
    String,
>)
    requires
        case@ == options@.case(),
    ensures
        match plan {
            Ok(plan) => options@.urma_plan(role) == Ok::<PlanView, Seq<char>>(plan@),
            Err(detail) => options@.urma_plan(role) == Err::<PlanView, Seq<char>>(detail@),
        },
{
    let profile = match parse_profile(options.urma_profile.as_str()) {
        Ok(profile) => profile,
        Err(detail) => {
            return Err(detail);
        },
    };
    match role {
        ProgramRole::Parent => {
            let source = match case.scenario {
                BenchmarkScenario::Memory => if profile.uses_fixed_tx() {
                    UrmaInput::Fixed
                } else {
                    UrmaInput::Generated
                },
                BenchmarkScenario::File => match named_input(options.input) {
                    Ok(path) => UrmaInput::File(path),
                    Err(detail) => {
                        return Err(detail);
                    },
                },
            };
            Ok(
                BenchmarkPlan::UrmaParent {
                    case,
                    device: options.device,
                    eid_index: options.eid_index,
                    listen: options.listen,
                    source,
                    profile,
                    post_list: options.urma_post_list,
                },
            )
        },
        ProgramRole::Child => {
            let destination = match case.scenario {
                BenchmarkScenario::Memory => UrmaBenchmarkDestination::Memory,
                BenchmarkScenario::File => match named_output(options.output) {
                    Ok(path) => match options.output_mode {
                        OutputMode::Fresh => UrmaBenchmarkDestination::FreshFile(path),
                        OutputMode::Truncate => UrmaBenchmarkDestination::File(path),
                    },
                    Err(detail) => {
                        return Err(detail);
                    },
                },
            };
            Ok(
                BenchmarkPlan::UrmaChild {
                    case,
                    device: options.device,
                    eid_index: options.eid_index,
                    parent: options.parent,
                    destination,
                    profile,
                    crc_workers: options.crc_workers,
                    cleanup: options.cleanup_output,
                },
            )
        },
    }
}

/// What the options come to. `has_provider` says whether URMA cases can run.
pub fn plan_benchmark(options: BenchmarkOptions, has_provider: bool) -> (plan: core::result::Result<
    BenchmarkPlan,
    String,
>)
    ensures
        match plan {
            Ok(plan) => options@.plan(has_provider) == Ok::<PlanView, Seq<char>>(plan@),
            Err(detail) => options@.plan(has_provider) == Err::<PlanView, Seq<char>>(detail@),
        },
{
    let case = match BenchmarkCase::new(
        options.case_id.as_str(),
        options.repeat,
        options.scenario,
        options.transport,
        options.bytes,
        options.chunk_size,
        options.window,
        options.timing_mode,
        options.completion_policy,
        options.data_seed,
    ) {
        Ok(case) => case,
        Err(error) => {
            return Err(error.to_string());
        },
    };
    if options.dry_run {
        return Ok(BenchmarkPlan::DryRun(case.to_json_line()));
    }
    let role = match options.role {
        Some(role) => role,
        None => {
            return Err("benchmark requires --role parent or --role child".to_owned());
        },
    };
    if options.cleanup_output && (role != ProgramRole::Child || case.scenario
        != BenchmarkScenario::File) {
        return Err("--cleanup-output requires --role child --scenario file".to_owned());
    }
    if case.transport != BenchmarkTransport::Urma {
        return plan_tcp(options, case, role);
    }
    if has_provider {
        plan_urma(options, case, role)
    } else {
        Err("URMA benchmark requires --features urma".to_owned())
    }
}

/// What the demonstration programs do.
#[derive(Debug, Eq, PartialEq)]
pub enum DemoMode {
    /// Moves one file.
    File(String),
    /// Exchanges a number of messages.
    PingPong(u32),
}

/// What the demonstration programs were asked for.
#[derive(Debug, Eq, PartialEq)]
pub struct DemoOptions {
    pub device: String,
    pub address: String,
    pub mode: DemoMode,
}

/// A [`DemoMode`] with its path as a character sequence.
pub enum DemoModeView {
    File(Seq<char>),
    PingPong(u32),
}

/// [`DemoOptions`] with their texts as character sequences.
pub struct DemoView {
    pub device: Seq<char>,
    pub address: Seq<char>,
    pub mode: DemoModeView,
}

impl View for DemoOptions {
    type V = DemoView;

    open spec fn view(&self) -> DemoView {
        DemoView {
            device: self.device@,
            address: self.address@,
            mode: match self.mode {
                DemoMode::File(path) => DemoModeView::File(path@),
                DemoMode::PingPong(rounds) => DemoModeView::PingPong(rounds),
            },
        }
    }
}

/// What a demonstration program's command line asks for, or why it is refused.
pub open spec fn demo_parsed(args: Seq<Seq<char>>, usage: Seq<char>) -> core::result::Result<
    DemoView,
    Seq<char>,
> {
    let device = if args.len() > 0 {
        args[0]
    } else {
        "urma0"@
    };
    let address = if args.len() > 1 {
        args[1]
    } else {
        "127.0.0.1:19090"@
    };
    if args.len() <= 2 {
        Err(usage)
    } else if args[2] != "--ping-pong"@ {
        Ok(DemoView { device, address, mode: DemoModeView::File(args[2]) })
    } else if args.len() == 3 {
        Ok(DemoView { device, address, mode: DemoModeView::PingPong(1) })
    } else {
        match number_of(args[3], u32::MAX as nat) {
            Err(fault) => Err(fault.name()),
            Ok(rounds) => if rounds == 0 {
                Err("rounds must be non-zero"@)
            } else {
                Ok(DemoView { device, address, mode: DemoModeView::PingPong(rounds as u32) })
            },
        }
    }
}

/// What a demonstration program's command line asks for.
pub fn parse_demo_args(args: &Vec<String>, usage: &'static str) -> (options: core::result::Result<
    DemoOptions,
    String,
>)
    ensures
        match options {
            Ok(options) => demo_parsed(text::views(args@), usage@) == Ok::<DemoView, Seq<char>>(
                options@,
            ),
            Err(detail) => demo_parsed(text::views(args@), usage@) == Err::<DemoView, Seq<char>>(
                detail@,
            ),
        },
{
    if args.len() <= 2 {
        return Err(usage.to_owned());
    }
    let device = args[0].as_str().to_owned();
    let address = args[1].as_str().to_owned();
    if !same_text(args[2].as_str(), "--ping-pong") {
        return Ok(DemoOptions { device, address, mode: DemoMode::File(args[2].as_str().to_owned()) },
        );
    }
    if args.len() == 3 {
        return Ok(DemoOptions { device, address, mode: DemoMode::PingPong(1) });
    }
    match read_number(args[3].as_str(), 0xffff_ffff) {
        Ok(rounds) => {
            if rounds == 0 {
                return Err("rounds must be non-zero".to_owned());
            }
            proof {
                lemma_number_bound(args@[3]@, u32::MAX as nat);
            }
            Ok(DemoOptions { device, address, mode: DemoMode::PingPong(rounds as u32) })
        },
        Err(fault) => Err(fault.as_str().to_owned()),
    }
}

/// What a probe program was asked for: which side it is, and where it connects.
#[derive(Debug, Eq, PartialEq)]
pub struct ProbeTarget {
    pub role: ProgramRole,
    pub device: String,
    pub eid_index: u32,
    pub address: String,
}

/// A [`ProbeTarget`] with its texts as character sequences.
pub struct TargetView {
    pub role: ProgramRole,
    pub device: Seq<char>,
    pub eid_index: u32,
    pub address: Seq<char>,
}

impl View for ProbeTarget {
    type V = TargetView;

    open spec fn view(&self) -> TargetView {
        TargetView {
            role: self.role,
            device: self.device@,
            eid_index: self.eid_index,
            address: self.address@,
        }
    }
}

/// The usage of the program that probes sends with an immediate value.
pub const SEND_IMM_USAGE: &'static str =
    "usage: send_imm_probe <parent|child> DEVICE EID_INDEX ADDRESS [MESSAGES=64]";

/// The usage of the program that probes one-sided reads.
pub const RM_READ_USAGE: &'static str =
    "usage: rm_read_probe <parent|child> DEVICE EID_INDEX ADDRESS [BYTES=67108864] [CHUNK=1048576] [DEPTH=128]";

/// Which side a word names.
pub open spec fn role_of(word: Seq<char>) -> Option<ProgramRole> {
    if word == "parent"@ {
        Some(ProgramRole::Parent)
    } else if word == "child"@ {
        Some(ProgramRole::Child)
    } else {
        None
    }
}

fn parse_role(word: &str) -> (role: Option<ProgramRole>)
    ensures
        role == role_of(word@),
{
    if same_text(word, "parent") {
        Some(ProgramRole::Parent)
    } else if same_text(word, "child") {
        Some(ProgramRole::Child)
    } else {
        None
    }
}

/// What the command line of the probe of sends asks for, or why it is refused.
pub open spec fn send_imm_parsed(args: Seq<Seq<char>>) -> core::result::Result<
    (TargetView, nat),
    Seq<char>,
> {
    let usage = SEND_IMM_USAGE@;
    if args.len() == 0 || role_of(args[0]) is None || args.len() <= 2 {
        Err(usage)
    } else {
        match number_of(args[2], u32::MAX as nat) {
            Err(fault) => Err(fault.name()),
            Ok(eid_index) => if args.len() <= 3 {
                Err(usage)
            } else {
                let target = TargetView {
                    role: role_of(args[0])->0,
                    device: args[1],
                    eid_index: eid_index as u32,
                    address: args[3],
                };
                let count = if args.len() == 4 {
                    Ok(64nat)
                } else {
                    number_of(args[4], usize::MAX as nat)
                };
                match count {
                    Err(fault) => Err(fault.name()),
                    Ok(count) => if args.len() > 5 || count == 0 || count > 4096 {
                        Err(usage)
                    } else {
                        Ok((target, count))
                    },
                }
            },
        }
    }
}

/// What the command line of the probe of sends asks for: the target and the number of messages.
pub fn parse_send_imm_args(args: &Vec<String>) -> (options: core::result::Result<
    (ProbeTarget, usize),
    String,
>)
    ensures
        match options {
            Ok((target, count)) => send_imm_parsed(text::views(args@)) == Ok::<
                (TargetView, nat),
                Seq<char>,
            >((target@, count as nat)),
            Err(detail) => send_imm_parsed(text::views(args@)) == Err::<
                (TargetView, nat),
                Seq<char>,
            >(detail@),
        },
{
    let ghost views = text::views(args@);
    if args.len() == 0 {
        return Err(SEND_IMM_USAGE.to_owned());
    }
    let role = match parse_role(args[0].as_str()) {
        Some(role) => role,
        None => {
            return Err(SEND_IMM_USAGE.to_owned());
        },
    };
    if args.len() <= 2 {
        return Err(SEND_IMM_USAGE.to_owned());
    }
    let eid_index: u64 = match read_number(args[2].as_str(), 0xffff_ffff) {
        Ok(eid_index) => eid_index,
        Err(fault) => {
            return Err(fault.as_str().to_owned());
        },
    };
    proof {
        lemma_number_bound(args@[2]@, u32::MAX as nat);
    }
    if args.len() <= 3 {
        return Err(SEND_IMM_USAGE.to_owned());
    }
    let mut count: u64 = 64;
    if args.len() > 4 {
        match read_number(args[4].as_str(), usize::MAX as u64) {
            Ok(number) => {
                count = number;
            },
            Err(fault) => {
                return Err(fault.as_str().to_owned());
            },
        }
    }
    if args.len() > 5 || count == 0 || count > 4096 {
        return Err(SEND_IMM_USAGE.to_owned());
    }
    Ok(
        (
            ProbeTarget {
                role,
                device: args[1].as_str().to_owned(),
                eid_index: eid_index as u32,
                address: args[3].as_str().to_owned(),
            },
            count as usize,
        ),
    )
}

/// An optional number of a command line.
pub open spec fn optional_number(
    args: Seq<Seq<char>>,
    at: int,
    maximum: nat,
    default: nat,
) -> core::result::Result<nat, NumberFault> {
    if args.len() <= at {
        Ok(default)
    } else {
        number_of(args[at], maximum)
    }
}

fn read_optional(args: &Vec<String>, at: usize, maximum: u64, default: u64) -> (number: core::result::Result<
    u64,
    String,
>)
    requires
        default <= maximum,
    ensures
        match number {
            Ok(number) => {
                &&& optional_number(
                    text::views(args@),
                    at as int,
                    maximum as nat,
                    default as nat,
                ) == Ok::<nat, NumberFault>(number as nat)
                &&& number <= maximum
            },
            Err(detail) => {
                &&& optional_number(
                    text::views(args@),
                    at as int,
                    maximum as nat,
                    default as nat,
                ) matches Err(fault)
                &&& detail@ == fault.name()
            },
        },
{
    if args.len() <= at {
        return Ok(default);
    }
    assert(text::views(args@)[at as int] == args@[at as int]@);
    match read_number(args[at].as_str(), maximum) {
        Ok(number) => {
            proof {
                lemma_number_bound(args@[at as int]@, maximum as nat);
            }
            Ok(number)
        },
        Err(fault) => Err(fault.as_str().to_owned()),
    }
}

/// The sizes of a probe of reads.
pub struct ReadSizes {
    pub transfer_bytes: nat,
    pub chunk_bytes: nat,
    pub queue_depth: nat,
}

/// What the command line of the probe of reads asks for, or why it is refused. That a word names no
/// side is found last.
pub open spec fn rm_read_parsed(args: Seq<Seq<char>>) -> core::result::Result<
    (TargetView, ReadSizes),
    Seq<char>,
> {
    let usage = RM_READ_USAGE@;
    if args.len() <= 2 {
        Err(usage)
    } else {
        match number_of(args[2], u32::MAX as nat) {
            Err(fault) => Err(fault.name()),
            Ok(eid_index) => if args.len() <= 3 {
                Err(usage)
            } else {
                match optional_number(args, 4, usize::MAX as nat, 67_108_864) {
                    Err(fault) => Err(fault.name()),
                    Ok(transfer_bytes) => match optional_number(
                        args,
                        5,
                        usize::MAX as nat,
                        1_048_576,
                    ) {
                        Err(fault) => Err(fault.name()),
                        Ok(chunk_bytes) => match optional_number(args, 6, u32::MAX as nat, 128) {
                            Err(fault) => Err(fault.name()),
                            Ok(queue_depth) => if args.len() > 7 || role_of(args[0]) is None {
                                Err(usage)
                            } else {
                                Ok(
                                    (
                                        TargetView {
                                            role: role_of(args[0])->0,
                                            device: args[1],
                                            eid_index: eid_index as u32,
                                            address: args[3],
                                        },
                                        ReadSizes { transfer_bytes, chunk_bytes, queue_depth },
                                    ),
                                )
                            },
                        },
                    },
                }
            },
        }
    }
}

/// What the command line of the probe of reads asks for: the side, the address and the
/// configuration.
pub fn parse_rm_read_args(args: &Vec<String>) -> (options: core::result::Result<
    (ProgramRole, String, RmReadProbeConfig),
    String,
>)
    ensures
        match options {
            Ok((role, address, config)) => {
                &&& rm_read_parsed(text::views(args@)) matches Ok((target, sizes))
                &&& target == (TargetView {
                    role,
                    device: config.device_name@,
                    eid_index: config.eid_index,
                    address: address@,
                })
                &&& config.transfer_bytes == sizes.transfer_bytes
                &&& config.chunk_bytes == sizes.chunk_bytes
                &&& config.queue_depth == sizes.queue_depth
                &&& config.jetty_token == 0x4a46_524d
                &&& config.segment_token == 0x5345_4752
            },
            Err(detail) => rm_read_parsed(text::views(args@)) == Err::<
                (TargetView, ReadSizes),
                Seq<char>,
            >(detail@),
        },
{
    let ghost views = text::views(args@);
    if args.len() <= 2 {
        return Err(RM_READ_USAGE.to_owned());
    }
    assert(views[0] == args@[0]@ && views[1] == args@[1]@ && views[2] == args@[2]@);
    let eid_index: u64 = match read_number(args[2].as_str(), 0xffff_ffff) {
        Ok(eid_index) => eid_index,
        Err(fault) => {
            return Err(fault.as_str().to_owned());
        },
    };
    proof {
        lemma_number_bound(args@[2]@, u32::MAX as nat);
    }
    if args.len() <= 3 {
        return Err(RM_READ_USAGE.to_owned());
    }
    assert(views[3] == args@[3]@);
    let mut config = RmReadProbeConfig::new(args[1].as_str(), eid_index as u32);
    match read_optional(args, 4, usize::MAX as u64, 67_108_864) {
        Ok(number) => {
            config.transfer_bytes = number as usize;
        },
        Err(detail) => {
            return Err(detail);
        },
    }
    match read_optional(args, 5, usize::MAX as u64, 1_048_576) {
        Ok(number) => {
            config.chunk_bytes = number as usize;
        },
        Err(detail) => {
            return Err(detail);
        },
    }
    match read_optional(args, 6, 0xffff_ffff, 128) {
        Ok(number) => {
            config.queue_depth = number as u32;
        },
        Err(detail) => {
            return Err(detail);
        },
    }
    if args.len() > 7 {
        return Err(RM_READ_USAGE.to_owned());
    }
    match parse_role(args[0].as_str()) {
        Some(role) => Ok((role, args[3].as_str().to_owned(), config)),
        None => Err(RM_READ_USAGE.to_owned()),
    }
}

} // verus!
