//! File-to-file comparisons: the cases of a matrix, which transport runs each, and what counts as a
//! sound result.

use vstd::prelude::*;

use crate::benchmark;
use crate::benchmark::{
    BenchmarkCase, BenchmarkResult, BenchmarkScenario, BenchmarkTransport, CaseView,
    FileCompletionPolicy, FileSource, TimingMode, TransportStats,
};
use crate::error::{invalid, Error, ErrorView, Result};
use crate::text;
use crate::text::{same_text, with_numbers, Text};

pub mod laws;
pub mod report;

pub use report::{B4Aggregate, B4Report, ThroughputSummary, ThroughputText};

verus! {

/// What a matrix of file transfers is made of.
#[derive(Debug, Eq, PartialEq)]
pub struct B4FileMatrixConfig {
    pub case_id: String,
    pub input_path: String,
    pub transfer_bytes: u64,
    pub chunk_size: u64,
    pub window: u32,
    pub repeat_count: u32,
    pub timing_mode: TimingMode,
    pub completion_policy: FileCompletionPolicy,
    pub data_seed: u64,
    pub transports: Vec<BenchmarkTransport>,
}

impl B4FileMatrixConfig {
    /// The case of a transport under a name.
    pub open spec fn case_view(
        self,
        case_id: Seq<char>,
        repeat: u32,
        transport: BenchmarkTransport,
    ) -> CaseView {
        CaseView {
            case_id,
            repeat,
            scenario: BenchmarkScenario::File,
            transport,
            transfer_bytes: self.transfer_bytes,
            chunk_size: self.chunk_size,
            window: self.window,
            timing_mode: self.timing_mode,
            completion_policy: self.completion_policy,
            data_seed: self.data_seed,
        }
    }

    /// Why the transports are refused, if they are refused.
    pub open spec fn transports_error(self, transports: Seq<BenchmarkTransport>) -> Option<ErrorView>
        decreases transports.len(),
    {
        if transports.len() == 0 {
            None
        } else {
            let earlier = transports.drop_last();
            if self.transports_error(earlier) is Some {
                self.transports_error(earlier)
            } else if earlier.contains(transports.last()) {
                Some(
                    ErrorView::InvalidConfiguration(
                        "duplicate B4 transport "@ + transports.last().name(),
                    ),
                )
            } else {
                self.case_view(self.case_id@, 1, transports.last()).error()
            }
        }
    }

    /// Why the matrix is refused, if it is refused.
    pub open spec fn error(self) -> Option<ErrorView> {
        if self.repeat_count == 0 {
            Some(ErrorView::InvalidConfiguration("B4 repeat_count must be non-zero"@))
        } else if self.input_path@.len() == 0 {
            Some(ErrorView::InvalidConfiguration("B4 input file path must not be empty"@))
        } else if self.transports@.len() == 0 {
            Some(ErrorView::InvalidConfiguration("B4 requires at least one transport"@))
        } else {
            self.transports_error(self.transports@)
        }
    }

    /// The case of a transport, under its full name.
    pub open spec fn expanded(self, transport: BenchmarkTransport, repeat: u32) -> CaseView {
        self.case_view(self.case_id@ + "-"@ + transport.name(), repeat, transport)
    }

    /// Why the cases of the first transports cannot be made, if they cannot.
    pub open spec fn expansion_error(self, transports: Seq<BenchmarkTransport>) -> Option<ErrorView>
        decreases transports.len(),
    {
        if transports.len() == 0 {
            None
        } else if self.expansion_error(transports.drop_last()) is Some {
            self.expansion_error(transports.drop_last())
        } else {
            self.expanded(transports.last(), 1).error()
        }
    }

    /// Why the matrix has no cases, if it has none.
    pub open spec fn cases_error(self) -> Option<ErrorView> {
        if self.error() is Some {
            self.error()
        } else if self.transports@.len() * self.repeat_count > usize::MAX {
            Some(ErrorView::InvalidConfiguration("B4 case count overflow"@))
        } else {
            self.expansion_error(self.transports@)
        }
    }

    /// Whether these are the cases of the first transports: each transport's repeats in turn.
    pub open spec fn lists(self, cases: Seq<CaseView>, transports: nat) -> bool {
        &&& cases.len() == transports * self.repeat_count
        &&& forall|i: int, r: int|
            0 <= i < transports && 0 <= r < self.repeat_count ==> #[trigger] cases[i
                * self.repeat_count + r] == self.expanded(self.transports@[i], (r + 1) as u32)
    }

    /// A valid matrix.
    pub fn new<T: Text, U: Text>(
        case_id: T,
        input_path: U,
        transfer_bytes: u64,
        chunk_size: u64,
        window: u32,
        repeat_count: u32,
        timing_mode: TimingMode,
        completion_policy: FileCompletionPolicy,
        data_seed: u64,
        transports: Vec<BenchmarkTransport>,
    ) -> (config: Result<Self>)
        ensures
            match config {
                Ok(config) => {
                    &&& config.error() is None
                    &&& config.case_id@ == case_id.text()
                    &&& config.input_path@ == input_path.text()
                    &&& config.transfer_bytes == transfer_bytes
                    &&& config.chunk_size == chunk_size
                    &&& config.window == window
                    &&& config.repeat_count == repeat_count
                    &&& config.timing_mode == timing_mode
                    &&& config.completion_policy == completion_policy
                    &&& config.data_seed == data_seed
                    &&& config.transports == transports
                },
                Err(error) => exists|config: B4FileMatrixConfig|
                    {
                        &&& #[trigger] config.error() == Some(error@)
                        &&& config.case_id@ == case_id.text()
                        &&& config.input_path@ == input_path.text()
                        &&& config.transfer_bytes == transfer_bytes
                        &&& config.chunk_size == chunk_size
                        &&& config.window == window
                        &&& config.repeat_count == repeat_count
                        &&& config.timing_mode == timing_mode
                        &&& config.completion_policy == completion_policy
                        &&& config.data_seed == data_seed
                        &&& config.transports == transports
                    },
            },
    {
        let config = B4FileMatrixConfig {
            case_id: case_id.into_string(),
            input_path: input_path.into_string(),
            transfer_bytes,
            chunk_size,
            window,
            repeat_count,
            timing_mode,
            completion_policy,
            data_seed,
            transports,
        };
        match config.validate() {
            Ok(()) => Ok(config),
            Err(error) => Err(error),
        }
    }

    fn make_case(&self, case_id: &str, repeat: u32, transport: BenchmarkTransport) -> (case: Result<
        BenchmarkCase,
    >)
        ensures
            match case {
                Ok(case) => {
                    &&& self.case_view(case_id@, repeat, transport).error() is None
                    &&& case@ == self.case_view(case_id@, repeat, transport)
                },
                Err(error) => self.case_view(case_id@, repeat, transport).error() == Some(error@),
            },
    {
        BenchmarkCase::new(
            case_id,
            repeat,
            BenchmarkScenario::File,
            transport,
            self.transfer_bytes,
            self.chunk_size,
            self.window,
            self.timing_mode,
            self.completion_policy,
            self.data_seed,
        )
    }

    proof fn lemma_transports_stop(self, transports: Seq<BenchmarkTransport>, few: int)
        requires
            0 <= few <= transports.len(),
            self.transports_error(transports.take(few)) is Some,
        ensures
            self.transports_error(transports) == self.transports_error(transports.take(few)),
        decreases transports.len() - few,
    {
        if few < transports.len() {
            assert(transports.take(few + 1).drop_last() =~= transports.take(few));
            self.lemma_transports_stop(transports, few + 1);
        } else {
            assert(transports.take(few) =~= transports);
        }
    }

    /// Whether the matrix can be run.
    pub fn validate(&self) -> (valid: Result<()>)
        ensures
            match valid {
                Ok(()) => self.error() is None,
                Err(error) => self.error() == Some(error@),
            },
    {
        if self.repeat_count == 0 {
            return Err(invalid("B4 repeat_count must be non-zero"));
        }
        if self.input_path.as_str().is_empty() {
            return Err(invalid("B4 input file path must not be empty"));
        }
        if self.transports.len() == 0 {
            return Err(invalid("B4 requires at least one transport"));
        }
        let mut index: usize = 0;
        while index < self.transports.len()
            invariant
                index <= self.transports@.len(),
                self.repeat_count > 0,
                self.input_path@.len() > 0,
                self.transports@.len() > 0,
                self.transports_error(self.transports@.take(index as int)) is None,
            decreases self.transports@.len() - index,
        {
            let transport = self.transports[index];
            let ghost earlier = self.transports@.take(index as int);
            proof {
                let longer = self.transports@.take(index + 1);
                assert(longer.drop_last() =~= earlier);
                assert(longer.last() == transport);
                if self.transports_error(longer) is Some {
                    self.lemma_transports_stop(self.transports@, index + 1);
                }
            }
            let mut other: usize = 0;
            while other < index
                invariant
                    other <= index < self.transports@.len(),
                    earlier == self.transports@.take(index as int),
                    transport == self.transports@[index as int],
                    self.repeat_count > 0,
                    self.input_path@.len() > 0,
                    earlier.contains(transport) ==> self.error() == Some(
                        ErrorView::InvalidConfiguration(
                            "duplicate B4 transport "@ + transport.name(),
                        ),
                    ),
                    forall|k: int| 0 <= k < other ==> #[trigger] self.transports@[k] != transport,
                decreases index - other,
            {
                if self.transports[other] == transport {
                    assert(earlier[other as int] == transport);
                    let mut detail = "duplicate B4 transport ".to_owned();
                    detail.append(transport.as_str());
                    return Err(Error::InvalidConfiguration(detail));
                }
                other += 1;
            }
            assert(!earlier.contains(transport));
            match self.make_case(self.case_id.as_str(), 1, transport) {
                Ok(_) => {},
                Err(error) => {
                    return Err(error);
                },
            }
            index += 1;
        }
        assert(self.transports@.take(self.transports@.len() as int) =~= self.transports@);
        Ok(())
    }

    proof fn lemma_expansion_stops(self, transports: Seq<BenchmarkTransport>, few: int)
        requires
            0 <= few <= transports.len(),
            self.expansion_error(transports.take(few)) is Some,
        ensures
            self.expansion_error(transports) == self.expansion_error(transports.take(few)),
        decreases transports.len() - few,
    {
        if few < transports.len() {
            assert(transports.take(few + 1).drop_last() =~= transports.take(few));
            self.lemma_expansion_stops(transports, few + 1);
        } else {
            assert(transports.take(few) =~= transports);
        }
    }

    /// The cases of the matrix: each transport's repeats in turn.
    pub fn cases(&self) -> (cases: Result<Vec<BenchmarkCase>>)
        ensures
            match cases {
                Ok(cases) => {
                    &&& self.cases_error() is None
                    &&& self.lists(case_views(cases@), self.transports@.len())
                },
                Err(error) => self.cases_error() == Some(error@),
            },
    {
        match self.validate() {
            Ok(()) => {},
            Err(error) => {
                return Err(error);
            },
        }
        match self.transports.len().checked_mul(self.repeat_count as usize) {
            Some(_) => {},
            None => {
                return Err(invalid("B4 case count overflow"));
            },
        }
        let mut cases: Vec<BenchmarkCase> = Vec::new();
        let mut index: usize = 0;
        assert(0 * self.repeat_count == 0) by (nonlinear_arith);
        while index < self.transports.len()
            invariant
                index <= self.transports@.len(),
                self.error() is None,
                self.transports@.len() * self.repeat_count <= usize::MAX,
                self.expansion_error(self.transports@.take(index as int)) is None,
                self.lists(case_views(cases@), index as nat),
            decreases self.transports@.len() - index,
        {
            let transport = self.transports[index];
            let mut case_id = self.case_id.as_str().to_owned();
            case_id.append("-");
            case_id.append(transport.as_str());
            proof {
                let longer = self.transports@.take(index + 1);
                assert(longer.drop_last() =~= self.transports@.take(index as int));
                assert(longer.last() == transport);
                if self.expansion_error(longer) is Some {
                    self.lemma_expansion_stops(self.transports@, index + 1);
                }
            }
            let ghost before = case_views(cases@);
            let mut repeat: u32 = 0;
            while repeat < self.repeat_count
                invariant
                    repeat <= self.repeat_count,
                    index < self.transports@.len(),
                    transport == self.transports@[index as int],
                    case_id@ == self.case_id@ + "-"@ + transport.name(),
                    self.error() is None,
                    self.transports@.len() * self.repeat_count <= usize::MAX,
                    self.expanded(transport, 1).error() is Some ==> self.cases_error()
                        == self.expanded(transport, 1).error(),
                    repeat > 0 ==> self.expanded(transport, 1).error() is None,
                    cases@.len() == before.len() + repeat,
                    before.len() == index * self.repeat_count,
                    forall|k: int|
                        0 <= k < before.len() ==> #[trigger] case_views(cases@)[k] == before[k],
                    forall|r: int|
                        0 <= r < repeat ==> #[trigger] case_views(cases@)[before.len() + r]
                            == self.expanded(transport, (r + 1) as u32),
                decreases self.repeat_count - repeat,
            {
                let ghost so_far = case_views(cases@);
                let case = match self.make_case(case_id.as_str(), repeat + 1, transport) {
                    Ok(case) => case,
                    Err(error) => {
                        proof {
                            lemma_error_ignores_repeat(
                                self.expanded(transport, 1),
                                self.expanded(transport, (repeat + 1) as u32),
                            );
                        }
                        return Err(error);
                    },
                };
                proof {
                    lemma_error_ignores_repeat(
                        self.expanded(transport, 1),
                        self.expanded(transport, (repeat + 1) as u32),
                    );
                }
                cases.push(case);
                assert(case_views(cases@) =~= so_far.push(case@));
                repeat += 1;
            }
            proof {
                let count = self.repeat_count as int;
                assert((index + 1) * count == index * count + count) by (nonlinear_arith);
                let after = case_views(cases@);
                assert forall|i: int, r: int|
                    0 <= i < index + 1 && 0 <= r < count implies #[trigger] after[i * count + r]
                    == self.expanded(self.transports@[i], (r + 1) as u32) by {
                    if i < index {
                        assert(0 <= i * count && i * count + r < index * count) by (nonlinear_arith)
                            requires
                                0 <= i < index,
                                0 <= r < count,
                        ;
                        assert(after[i * count + r] == before[i * count + r]);
                    } else {
                        assert(after[before.len() + r] == self.expanded(
                            transport,
                            (r + 1) as u32,
                        ));
                    }
                }
            }
            index += 1;
        }
        assert(self.transports@.take(self.transports@.len() as int) =~= self.transports@);
        Ok(cases)
    }
}

proof fn lemma_error_ignores_repeat(first: CaseView, other: CaseView)
    requires
        first.repeat != 0,
        other.repeat != 0,
        other == (CaseView { repeat: other.repeat, ..first }),
    ensures
        first.error() == other.error(),
{
}

/// The views of some cases.
pub open spec fn case_views(cases: Seq<BenchmarkCase>) -> Seq<CaseView> {
    Seq::new(cases.len(), |i: int| cases[i]@)
}

/// Which transport runs a case.
#[derive(Clone, Copy, Debug, Eq, PartialEq, Structural)]
pub enum B4TransportDispatch {
    TcpUserspace,
    TcpSendfile,
    Urma,
}

impl B4TransportDispatch {
    /// Which transport runs a case, or why none does.
    pub open spec fn of(case: CaseView) -> core::result::Result<Self, ErrorView> {
        if case.error() is Some {
            Err(case.error()->0)
        } else if case.scenario != BenchmarkScenario::File {
            Err(ErrorView::InvalidConfiguration("B4 supports only file-to-file cases"@))
        } else {
            Ok(
                match case.transport {
                    BenchmarkTransport::TcpUserspace => B4TransportDispatch::TcpUserspace,
                    BenchmarkTransport::TcpSendfile => B4TransportDispatch::TcpSendfile,
                    BenchmarkTransport::Urma => B4TransportDispatch::Urma,
                },
            )
        }
    }

    /// Which transport runs a case.
    pub fn for_case(case: &BenchmarkCase) -> (dispatch: Result<Self>)
        ensures
            match dispatch {
                Ok(dispatch) => Self::of(case@) == Ok::<Self, ErrorView>(dispatch),
                Err(error) => Self::of(case@) == Err::<Self, ErrorView>(error@),
            },
    {
        match case.validate() {
            Ok(()) => {},
            Err(error) => {
                return Err(error);
            },
        }
        if case.scenario != BenchmarkScenario::File {
            return Err(invalid("B4 supports only file-to-file cases"));
        }
        Ok(
            match case.transport {
                BenchmarkTransport::TcpUserspace => B4TransportDispatch::TcpUserspace,
                BenchmarkTransport::TcpSendfile => B4TransportDispatch::TcpSendfile,
                BenchmarkTransport::Urma => B4TransportDispatch::Urma,
            },
        )
    }
}

/// What came of a case.
#[derive(Clone, Copy, Debug, Eq, PartialEq, Structural)]
pub enum B4CaseStatus {
    Success,
    IntegrityFailure,
    Unsupported,
    Failed,
}

impl B4CaseStatus {
    /// The status in words.
    pub open spec fn name(self) -> Seq<char> {
        match self {
            B4CaseStatus::Success => "success"@,
            B4CaseStatus::IntegrityFailure => "integrity-failure"@,
            B4CaseStatus::Unsupported => "unsupported"@,
            B4CaseStatus::Failed => "failed"@,
        }
    }

    pub fn as_str(self) -> (name: &'static str)
        ensures
            name@ == self.name(),
    {
        match self {
            B4CaseStatus::Success => "success",
            B4CaseStatus::IntegrityFailure => "integrity-failure",
            B4CaseStatus::Unsupported => "unsupported",
            B4CaseStatus::Failed => "failed",
        }
    }
}

/// The first of the counters that is missing.
pub open spec fn first_missing(counters: Map<Seq<char>, u64>, names: Seq<Seq<char>>) -> Option<
    Seq<char>,
>
    decreases names.len(),
{
    if names.len() == 0 {
        None
    } else if first_missing(counters, names.drop_last()) is Some {
        first_missing(counters, names.drop_last())
    } else if !counters.dom().contains(names.last()) {
        Some(names.last())
    } else {
        None
    }
}

proof fn lemma_missing_stops(counters: Map<Seq<char>, u64>, names: Seq<Seq<char>>, few: int)
    requires
        0 <= few <= names.len(),
        first_missing(counters, names.take(few)) is Some,
    ensures
        first_missing(counters, names) == first_missing(counters, names.take(few)),
    decreases names.len() - few,
{
    if few < names.len() {
        assert(names.take(few + 1).drop_last() =~= names.take(few));
        lemma_missing_stops(counters, names, few + 1);
    } else {
        assert(names.take(few) =~= names);
    }
}

proof fn lemma_none_missing(counters: Map<Seq<char>, u64>, names: Seq<Seq<char>>)
    requires
        first_missing(counters, names) is None,
    ensures
        forall|i: int| 0 <= i < names.len() ==> counters.dom().contains(#[trigger] names[i]),
    decreases names.len(),
{
    if names.len() > 0 {
        lemma_none_missing(counters, names.drop_last());
        assert forall|i: int| 0 <= i < names.len() implies counters.dom().contains(
            #[trigger] names[i],
        ) by {
            if i < names.len() - 1 {
                assert(names.drop_last()[i] == names[i]);
            }
        }
    }
}

/// The text for a counter that is missing.
pub open spec fn missing_text(name: Seq<char>) -> Seq<char> {
    "missing required transport stat "@ + name
}

fn require(counters: &TransportStats, name: &str) -> (value: core::result::Result<u64, String>)
    requires
        counters.wf(),
    ensures
        match value {
            Ok(value) => counters.map().dom().contains(name@) && counters.map()[name@] == value,
            Err(detail) => !counters.map().dom().contains(name@) && detail@ == missing_text(name@),
        },
{
    match counters.get(name) {
        Some(value) => Ok(value),
        None => {
            let mut detail = "missing required transport stat ".to_owned();
            detail.append(name);
            Err(detail)
        },
    }
}

/// The names as character sequences.
pub open spec fn name_views(names: Seq<&'static str>) -> Seq<Seq<char>> {
    Seq::new(names.len(), |i: int| names[i]@)
}

fn require_all(counters: &TransportStats, names: &Vec<&'static str>) -> (present: core::result::Result<
    (),
    String,
>)
    requires
        counters.wf(),
    ensures
        match present {
            Ok(()) => first_missing(counters.map(), name_views(names@)) is None,
            Err(detail) => {
                &&& first_missing(counters.map(), name_views(names@)) matches Some(name)
                &&& detail@ == missing_text(name)
            },
        },
{
    let ghost views = name_views(names@);
    let mut index: usize = 0;
    while index < names.len()
        invariant
            counters.wf(),
            views == name_views(names@),
            index <= names@.len(),
            first_missing(counters.map(), views.take(index as int)) is None,
        decreases names@.len() - index,
    {
        proof {
            let longer = views.take(index + 1);
            assert(longer.drop_last() =~= views.take(index as int));
            assert(longer.last() == names@[index as int]@);
            if first_missing(counters.map(), longer) is Some {
                lemma_missing_stops(counters.map(), views, index + 1);
            }
        }
        match require(counters, names[index]) {
            Ok(_) => {},
            Err(detail) => {
                return Err(detail);
            },
        }
        index += 1;
    }
    assert(views.take(views.len() as int) =~= views);
    Ok(())
}

/// The counters that a userspace TCP run has.
pub open spec fn userspace_names() -> Seq<Seq<char>> {
    seq![
        "parent_read_calls"@,
        "parent_write_calls"@,
        "child_read_calls"@,
        "partial_write_count"@,
    ]
}

fn list_userspace() -> (names: Vec<&'static str>)
    ensures
        name_views(names@) == userspace_names(),
{
    let mut names: Vec<&'static str> = Vec::new();
    names.push("parent_read_calls");
    names.push("parent_write_calls");
    names.push("child_read_calls");
    names.push("partial_write_count");
    assert(name_views(names@) =~= userspace_names());
    names
}

/// The counters that a `sendfile` run has.
pub open spec fn sendfile_names() -> Seq<Seq<char>> {
    seq![
        "sendfile_calls"@,
        "partial_sendfile_count"@,
    ]
}

fn list_sendfile() -> (names: Vec<&'static str>)
    ensures
        name_views(names@) == sendfile_names(),
{
    let mut names: Vec<&'static str> = Vec::new();
    names.push("sendfile_calls");
    names.push("partial_sendfile_count");
    assert(name_views(names@) =~= sendfile_names());
    names
}

/// The counters that an URMA run has.
pub open spec fn urma_names() -> Seq<Seq<char>> {
    seq![
        "send_post"@,
        "recv_post"@,
        "send_cqe"@,
        "send_retired"@,
        "recv_cqe"@,
        "cqe_error"@,
        "poll_calls"@,
        "empty_polls"@,
        "send_jfc_poll_calls"@,
        "recv_jfc_poll_calls"@,
        "yield_count"@,
        "sleep_count"@,
        "backoff_sleep_ns"@,
        "jfc_rearm_count"@,
        "event_wait_count"@,
        "event_wakeup_count"@,
        "event_timeout_count"@,
        "spurious_wakeup_count"@,
        "event_wait_ns"@,
        "max_event_wait_ns"@,
        "max_empty_streak"@,
        "nonempty_polls"@,
        "completion_batch_total"@,
        "avg_poll_batch_milli"@,
        "empty_poll_ratio_ppm"@,
        "max_completion_poll_gap_ns"@,
        "max_outstanding_send"@,
        "current_outstanding_send"@,
        "current_outstanding_recv"@,
        "configured_window"@,
        "configured_receive_credit"@,
        "slot_size"@,
        "effective_payload_size"@,
        "tx_slot_count"@,
        "rx_slot_count"@,
        "total_registered_bytes"@,
    ]
}

fn list_urma() -> (names: Vec<&'static str>)
    ensures
        name_views(names@) == urma_names(),
{
    let mut names: Vec<&'static str> = Vec::new();
    names.push("send_post");
    names.push("recv_post");
    names.push("send_cqe");
    names.push("send_retired");
    names.push("recv_cqe");
    names.push("cqe_error");
    names.push("poll_calls");
    names.push("empty_polls");
    names.push("send_jfc_poll_calls");
    names.push("recv_jfc_poll_calls");
    names.push("yield_count");
    names.push("sleep_count");
    names.push("backoff_sleep_ns");
    names.push("jfc_rearm_count");
    names.push("event_wait_count");
    names.push("event_wakeup_count");
    names.push("event_timeout_count");
    names.push("spurious_wakeup_count");
    names.push("event_wait_ns");
    names.push("max_event_wait_ns");
    names.push("max_empty_streak");
    names.push("nonempty_polls");
    names.push("completion_batch_total");
    names.push("avg_poll_batch_milli");
    names.push("empty_poll_ratio_ppm");
    names.push("max_completion_poll_gap_ns");
    names.push("max_outstanding_send");
    names.push("current_outstanding_send");
    names.push("current_outstanding_recv");
    names.push("configured_window");
    names.push("configured_receive_credit");
    names.push("slot_size");
    names.push("effective_payload_size");
    names.push("tx_slot_count");
    names.push("rx_slot_count");
    names.push("total_registered_bytes");
    assert(name_views(names@) =~= urma_names());
    names
}

/// Whether a result is on a case.
pub open spec fn result_is_on(result: BenchmarkResult, case: CaseView) -> bool {
    &&& result.case_id@ == case.case_id
    &&& result.repeat == case.repeat
    &&& result.transport == case.transport
    &&& result.scenario == BenchmarkScenario::File
    &&& result.chunk_size == case.chunk_size
    &&& result.window == case.window
    &&& result.timing_mode == case.timing_mode
    &&& result.completion_policy == case.completion_policy
}

/// Whether the counters of an URMA run add up: nothing outstanding, every send retired and every
/// receive completed, no failed completion, and the window and the payload as the case has them.
pub open spec fn urma_closed(counters: Map<Seq<char>, u64>, case: CaseView) -> bool {
    &&& counters["current_outstanding_send"@] == 0
    &&& counters["current_outstanding_recv"@] == 0
    &&& counters["send_post"@] == counters["send_retired"@]
    &&& counters["recv_post"@] == counters["recv_cqe"@]
    &&& counters["cqe_error"@] == 0
    &&& counters["configured_window"@] == case.window
    &&& counters["effective_payload_size"@] == case.chunk_size
}

/// What is wrong with the counters of a case, if anything is.
pub open spec fn counters_fault(counters: Map<Seq<char>, u64>, case: CaseView) -> Option<Seq<char>> {
    match case.transport {
        BenchmarkTransport::TcpUserspace => match first_missing(counters, userspace_names()) {
            Some(name) => Some(missing_text(name)),
            None => None,
        },
        BenchmarkTransport::TcpSendfile => match first_missing(counters, sendfile_names()) {
            Some(name) => Some(missing_text(name)),
            None => if !counters.dom().contains("parent_read_calls"@) {
                Some(missing_text("parent_read_calls"@))
            } else if counters["parent_read_calls"@] != 0 {
                Some("tcp-sendfile used Parent userspace read/write"@)
            } else if !counters.dom().contains("parent_write_calls"@) {
                Some(missing_text("parent_write_calls"@))
            } else if counters["parent_write_calls"@] != 0 {
                Some("tcp-sendfile used Parent userspace read/write"@)
            } else {
                None
            },
        },
        BenchmarkTransport::Urma => match first_missing(counters, urma_names()) {
            Some(name) => Some(missing_text(name)),
            None => if !urma_closed(counters, case) {
                Some("URMA completion/window/slot accounting did not close"@)
            } else if case.window > 1 && case.chunk_size == 0 {
                Some("invalid configuration: chunk_size must be non-zero"@)
            } else if case.window > 1 && benchmark::chunks_of(
                case.transfer_bytes as nat,
                case.chunk_size as nat,
            ) >= 2 && counters["max_outstanding_send"@] <= 1 {
                Some("URMA W>1 case did not achieve multiple outstanding SENDs"@)
            } else {
                None
            },
        },
    }
}

/// What is wrong with a result, if anything is.
pub open spec fn result_fault(case: CaseView, result: BenchmarkResult) -> Option<Seq<char>> {
    let counters = result.transport_stats.map();
    if !result_is_on(result, case) {
        Some("result does not match B4 case identity/parameters"@)
    } else if !(result.integrity.length_ok && result.integrity.digest_ok) {
        Some("length or CRC32 integrity failed"@)
    } else if !counters.dom().contains("bytes_sent"@) {
        Some(missing_text("bytes_sent"@))
    } else if counters["bytes_sent"@] != case.transfer_bytes {
        Some("transport byte counters do not match transfer_bytes"@)
    } else if !counters.dom().contains("bytes_received"@) {
        Some(missing_text("bytes_received"@))
    } else if counters["bytes_received"@] != case.transfer_bytes {
        Some("transport byte counters do not match transfer_bytes"@)
    } else if !counters.dom().contains("parent_elapsed_ns"@) {
        Some(missing_text("parent_elapsed_ns"@))
    } else {
        counters_fault(counters, case)
    }
}

fn validate_sendfile(counters: &TransportStats) -> (valid: core::result::Result<(), String>)
    requires
        counters.wf(),
    ensures
        forall|case: CaseView|
            case.transport == BenchmarkTransport::TcpSendfile ==> match valid {
                Ok(()) => #[trigger] counters_fault(counters.map(), case) is None,
                Err(detail) => counters_fault(counters.map(), case) == Some(detail@),
            },
{
    match require_all(counters, &list_sendfile()) {
        Ok(()) => {},
        Err(detail) => {
            return Err(detail);
        },
    }
    let reads: u64 = match require(counters, "parent_read_calls") {
        Ok(reads) => reads,
        Err(detail) => {
            return Err(detail);
        },
    };
    if reads != 0 {
        return Err("tcp-sendfile used Parent userspace read/write".to_owned());
    }
    let writes: u64 = match require(counters, "parent_write_calls") {
        Ok(writes) => writes,
        Err(detail) => {
            return Err(detail);
        },
    };
    if writes != 0 {
        return Err("tcp-sendfile used Parent userspace read/write".to_owned());
    }
    Ok(())
}

fn known(counters: &TransportStats, name: &str) -> (value: u64)
    requires
        counters.wf(),
        counters.map().dom().contains(name@),
    ensures
        value == counters.map()[name@],
{
    match counters.get(name) {
        Some(value) => value,
        None => 0,
    }
}

fn validate_urma(counters: &TransportStats, case: &BenchmarkCase) -> (valid: core::result::Result<
    (),
    String,
>)
    requires
        counters.wf(),
        case.transport == BenchmarkTransport::Urma,
    ensures
        match valid {
            Ok(()) => counters_fault(counters.map(), case@) is None,
            Err(detail) => counters_fault(counters.map(), case@) == Some(detail@),
        },
{
    match require_all(counters, &list_urma()) {
        Ok(()) => {},
        Err(detail) => {
            return Err(detail);
        },
    }
    proof {
        lemma_none_missing(counters.map(), urma_names());
        let names = urma_names();
        assert(counters.map().dom().contains(names[27]));
        assert(counters.map().dom().contains(names[28]));
        assert(counters.map().dom().contains(names[0]));
        assert(counters.map().dom().contains(names[3]));
        assert(counters.map().dom().contains(names[1]));
        assert(counters.map().dom().contains(names[4]));
        assert(counters.map().dom().contains(names[5]));
        assert(counters.map().dom().contains(names[29]));
        assert(counters.map().dom().contains(names[32]));
        assert(counters.map().dom().contains(names[26]));
    }
    if known(counters, "current_outstanding_send") != 0 || known(
        counters,
        "current_outstanding_recv",
    ) != 0 || known(counters, "send_post") != known(counters, "send_retired") || known(
        counters,
        "recv_post",
    ) != known(counters, "recv_cqe") || known(counters, "cqe_error") != 0 || known(
        counters,
        "configured_window",
    ) != case.window as u64 || known(counters, "effective_payload_size") != case.chunk_size {
        return Err("URMA completion/window/slot accounting did not close".to_owned());
    }
    if case.window > 1 {
        match case.chunk_count() {
            Ok(chunks) => {
                if chunks >= 2 && known(counters, "max_outstanding_send") <= 1 {
                    return Err(
                        "URMA W>1 case did not achieve multiple outstanding SENDs".to_owned(),
                    );
                }
            },
            Err(error) => {
                let detail = error.to_string();
                proof {
                    reveal_strlit("invalid configuration: ");
                    reveal_strlit("chunk_size must be non-zero");
                    reveal_strlit("invalid configuration: chunk_size must be non-zero");
                    assert(detail@ =~= "invalid configuration: chunk_size must be non-zero"@);
                }
                return Err(detail);
            },
        }
    }
    Ok(())
}

/// Whether a result is a sound one of a case.
pub fn validate_b4_result(case: &BenchmarkCase, result: &BenchmarkResult) -> (valid: core::result::Result<
    (),
    String,
>)
    requires
        result.transport_stats.wf(),
    ensures
        match valid {
            Ok(()) => result_fault(case@, *result) is None,
            Err(detail) => result_fault(case@, *result) == Some(detail@),
        },
{
    if !same_text(result.case_id.as_str(), case.case_id.as_str()) || result.repeat != case.repeat
        || result.transport != case.transport || result.scenario != BenchmarkScenario::File
        || result.chunk_size != case.chunk_size || result.window != case.window || result.timing_mode
        != case.timing_mode || result.completion_policy != case.completion_policy {
        return Err("result does not match B4 case identity/parameters".to_owned());
    }
    if !result.integrity.is_ok() {
        return Err("length or CRC32 integrity failed".to_owned());
    }
    let counters = &result.transport_stats;
    let sent: u64 = match require(counters, "bytes_sent") {
        Ok(sent) => sent,
        Err(detail) => {
            return Err(detail);
        },
    };
    if sent != case.transfer_bytes {
        return Err("transport byte counters do not match transfer_bytes".to_owned());
    }
    let received: u64 = match require(counters, "bytes_received") {
        Ok(received) => received,
        Err(detail) => {
            return Err(detail);
        },
    };
    if received != case.transfer_bytes {
        return Err("transport byte counters do not match transfer_bytes".to_owned());
    }
    match require(counters, "parent_elapsed_ns") {
        Ok(_) => {},
        Err(detail) => {
            return Err(detail);
        },
    }
    match case.transport {
        BenchmarkTransport::TcpUserspace => require_all(counters, &list_userspace()),
        BenchmarkTransport::TcpSendfile => validate_sendfile(counters),
        BenchmarkTransport::Urma => validate_urma(counters, case),
    }
}

/// A result counts as sound exactly where it is on its case, its payload arrived intact, and its
/// counters say that every byte was sent and received.
pub proof fn sound_results_are_complete(case: CaseView, result: BenchmarkResult)
    requires
        result_fault(case, result) is None,
    ensures
        result_is_on(result, case),
        result.integrity.length_ok && result.integrity.digest_ok,
        result.transport_stats.map()["bytes_sent"@] == case.transfer_bytes,
        result.transport_stats.map()["bytes_received"@] == case.transfer_bytes,
        case.transport == BenchmarkTransport::Urma ==> urma_closed(
            result.transport_stats.map(),
            case,
        ),
        case.transport == BenchmarkTransport::TcpSendfile ==> {
            &&& result.transport_stats.map()["parent_read_calls"@] == 0
            &&& result.transport_stats.map()["parent_write_calls"@] == 0
        },
{
}

/// What came of running one case.
pub struct B4FileRunRecord {
    pub case: BenchmarkCase,
    pub status: B4CaseStatus,
    pub result: Option<BenchmarkResult>,
    pub detail: Option<String>,
}

/// The text, or none.
pub open spec fn detail_view(detail: Option<String>) -> Option<Seq<char>> {
    match detail {
        Some(detail) => Some(detail@),
        None => None,
    }
}

impl B4FileRunRecord {
    /// Counters stand in order, and a success has a result.
    pub open spec fn wf(self) -> bool {
        &&& self.result matches Some(result) ==> result.transport_stats.wf()
        &&& self.status == B4CaseStatus::Success ==> self.result is Some
    }

    /// The record of a case that gave a result.
    pub fn success(case: BenchmarkCase, result: BenchmarkResult) -> (record: Self)
        requires
            result.transport_stats.wf(),
        ensures
            record.wf(),
            record.case == case,
            record.result == Some(result),
            detail_view(record.detail) == result_fault(case@, result),
            record.status == if result_fault(case@, result) is None {
                B4CaseStatus::Success
            } else if result.integrity.length_ok && result.integrity.digest_ok {
                B4CaseStatus::Failed
            } else {
                B4CaseStatus::IntegrityFailure
            },
    {
        match validate_b4_result(&case, &result) {
            Ok(()) => B4FileRunRecord {
                case,
                status: B4CaseStatus::Success,
                result: Some(result),
                detail: None,
            },
            Err(detail) => {
                let status = if result.integrity.is_ok() {
                    B4CaseStatus::Failed
                } else {
                    B4CaseStatus::IntegrityFailure
                };
                B4FileRunRecord { case, status, result: Some(result), detail: Some(detail) }
            },
        }
    }

    /// The record of a case that cannot be run here.
    pub fn unsupported<T: Text>(case: BenchmarkCase, detail: T) -> (record: Self)
        ensures
            record.wf(),
            record.case == case,
            record.status == B4CaseStatus::Unsupported,
            record.result is None,
            detail_view(record.detail) == Some(detail.text()),
    {
        B4FileRunRecord {
            case,
            status: B4CaseStatus::Unsupported,
            result: None,
            detail: Some(detail.into_string()),
        }
    }

    /// The record of a case that failed.
    pub fn failed<T: Text>(case: BenchmarkCase, detail: T) -> (record: Self)
        ensures
            record.wf(),
            record.case == case,
            record.status == B4CaseStatus::Failed,
            record.result is None,
            detail_view(record.detail) == Some(detail.text()),
    {
        B4FileRunRecord {
            case,
            status: B4CaseStatus::Failed,
            result: None,
            detail: Some(detail.into_string()),
        }
    }
}

/// What running a case gave.
pub enum B4ExecutionOutcome {
    Result(BenchmarkResult),
    Unsupported(String),
    Failed(String),
}

/// A matrix whose source was scanned.
pub struct B4FileMatrixRunner {
    config: B4FileMatrixConfig,
    source: FileSource,
    cases: Vec<BenchmarkCase>,
}

impl B4FileMatrixRunner {
    /// The matrix.
    pub closed spec fn matrix(self) -> B4FileMatrixConfig {
        self.config
    }

    /// The source of every case.
    pub closed spec fn scanned(self) -> FileSource {
        self.source
    }

    /// The cases, in the order in which they run.
    pub closed spec fn listed(self) -> Seq<CaseView> {
        case_views(self.cases@)
    }

    /// Why a matrix cannot be run from a source, if it cannot.
    pub open spec fn prepare_error(config: B4FileMatrixConfig, scanned: Result<FileSource>) -> Option<
        ErrorView,
    > {
        if config.error() is Some {
            config.error()
        } else {
            match scanned {
                Err(error) => Some(error@),
                Ok(source) => if source.length != config.transfer_bytes {
                    Some(
                        ErrorView::InvalidConfiguration(
                            "B4 source length "@ + text::decimal(source.length as nat)
                                + " does not match transfer_bytes "@ + text::decimal(
                                config.transfer_bytes as nat,
                            ) + ""@,
                        ),
                    )
                } else {
                    config.cases_error()
                },
            }
        }
    }

    /// A matrix over a source that was scanned once.
    pub fn prepare(config: B4FileMatrixConfig, scanned: Result<FileSource>) -> (runner: Result<Self>)
        ensures
            match runner {
                Ok(runner) => {
                    &&& Self::prepare_error(config, scanned) is None
                    &&& runner.matrix() == config
                    &&& Ok::<FileSource, Error>(runner.scanned()) == scanned
                    &&& config.lists(runner.listed(), config.transports@.len())
                },
                Err(error) => Self::prepare_error(config, scanned) == Some(error@),
            },
    {
        match config.validate() {
            Ok(()) => {},
            Err(error) => {
                return Err(error);
            },
        }
        let source = match scanned {
            Ok(source) => source,
            Err(error) => {
                return Err(error);
            },
        };
        if source.length() != config.transfer_bytes {
            return Err(
                Error::InvalidConfiguration(
                    with_numbers(
                        "B4 source length ",
                        source.length(),
                        " does not match transfer_bytes ",
                        config.transfer_bytes,
                        "",
                    ),
                ),
            );
        }
        match config.cases() {
            Ok(cases) => Ok(B4FileMatrixRunner { config, source, cases }),
            Err(error) => Err(error),
        }
    }

    pub fn config(&self) -> (config: &B4FileMatrixConfig)
        ensures
            *config == self.matrix(),
    {
        &self.config
    }

    pub fn source(&self) -> (source: &FileSource)
        ensures
            *source == self.scanned(),
    {
        &self.source
    }

    pub fn cases(&self) -> (cases: &Vec<BenchmarkCase>)
        ensures
            case_views(cases@) == self.listed(),
    {
        &self.cases
    }

    /// The report on what running each case gave, in the order of the cases.
    pub fn run_with(&self, outcomes: Vec<B4ExecutionOutcome>) -> (report: B4Report)
        requires
            outcomes@.len() == self.listed().len(),
            forall|i: int|
                0 <= i < outcomes@.len() ==> (#[trigger] outcomes@[i] matches
                    B4ExecutionOutcome::Result(result) ==> result.transport_stats.wf()),
        ensures
            report.wf(),
            report.records@.len() == outcomes@.len(),
            forall|i: int|
                0 <= i < outcomes@.len() ==> is_record_of(
                    #[trigger] report.records@[i],
                    self.listed()[i],
                    outcomes@[i],
                ),
    {
        let mut pending = outcomes;
        let mut records: Vec<B4FileRunRecord> = Vec::new();
        let mut index: usize = 0;
        while index < self.cases.len()
            invariant
                index <= self.cases@.len(),
                self.listed() == case_views(self.cases@),
                outcomes@.len() == self.cases@.len(),
                pending@ == outcomes@.skip(index as int),
                records@.len() == index,
                forall|i: int|
                    0 <= i < outcomes@.len() ==> (#[trigger] outcomes@[i] matches
                        B4ExecutionOutcome::Result(result) ==> result.transport_stats.wf()),
                forall|i: int| 0 <= i < index ==> (#[trigger] records@[i]).wf(),
                forall|i: int|
                    0 <= i < index ==> is_record_of(
                        #[trigger] records@[i],
                        self.listed()[i],
                        outcomes@[i],
                    ),
            decreases self.cases@.len() - index,
        {
            let case = copy_case(&self.cases[index]);
            let outcome = pending.remove(0);
            assert(outcome == outcomes@[index as int]);
            let record = match outcome {
                B4ExecutionOutcome::Result(result) => B4FileRunRecord::success(case, result),
                B4ExecutionOutcome::Unsupported(detail) => {
                    B4FileRunRecord::unsupported(case, detail)
                },
                B4ExecutionOutcome::Failed(detail) => B4FileRunRecord::failed(case, detail),
            };
            assert(is_record_of(record, self.listed()[index as int], outcomes@[index as int]));
            records.push(record);
            index += 1;
            assert(pending@ =~= outcomes@.skip(index as int));
        }
        B4Report::from_records(records)
    }
}

/// Whether a record is the one of a case that gave an outcome.
pub open spec fn is_record_of(
    record: B4FileRunRecord,
    case: CaseView,
    outcome: B4ExecutionOutcome,
) -> bool {
    &&& record.case@ == case
    &&& match outcome {
        B4ExecutionOutcome::Result(result) => {
            &&& record.result == Some(result)
            &&& detail_view(record.detail) == result_fault(case, result)
            &&& record.status == if result_fault(case, result) is None {
                B4CaseStatus::Success
            } else if result.integrity.length_ok && result.integrity.digest_ok {
                B4CaseStatus::Failed
            } else {
                B4CaseStatus::IntegrityFailure
            }
        },
        B4ExecutionOutcome::Unsupported(detail) => {
            &&& record.status == B4CaseStatus::Unsupported
            &&& record.result is None
            &&& detail_view(record.detail) == Some(detail@)
        },
        B4ExecutionOutcome::Failed(detail) => {
            &&& record.status == B4CaseStatus::Failed
            &&& record.result is None
            &&& detail_view(record.detail) == Some(detail@)
        },
    }
}

/// A copy of a case.
pub fn copy_case(case: &BenchmarkCase) -> (copy: BenchmarkCase)
    ensures
        copy@ == case@,
{
    BenchmarkCase {
        case_id: case.case_id.as_str().to_owned(),
        repeat: case.repeat,
        scenario: case.scenario,
        transport: case.transport,
        transfer_bytes: case.transfer_bytes,
        chunk_size: case.chunk_size,
        window: case.window,
        timing_mode: case.timing_mode,
        completion_policy: case.completion_policy,
        data_seed: case.data_seed,
    }
}

} // verus!
