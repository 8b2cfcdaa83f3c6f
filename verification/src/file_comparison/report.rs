//! The report on a matrix: how many cases of each transport came to what, as JSON lines and CSV.

use vstd::prelude::*;

use super::{B4CaseStatus, B4FileRunRecord};
use crate::benchmark::BenchmarkTransport;
use crate::json;
use crate::json::{is_control_char, JsonObject};
use crate::text;
use crate::text::{decimal_string, join, push_hex};

verus! {

/// A throughput as it is printed.
pub struct ThroughputText {
    pub mib_s: String,
    pub gbit_s: String,
}

/// How the throughputs of a transport's samples spread, as it is printed.
pub struct ThroughputSummary {
    pub mib_s_median: String,
    pub mib_s_min: String,
    pub mib_s_max: String,
    pub gbit_s_median: String,
    pub cv_percent: String,
    /// Whether the coefficient of variation is above five percent.
    pub varies: bool,
}

/// How many cases of one transport came to what.
#[derive(Clone, Copy, Debug, Eq, PartialEq, Structural)]
pub struct B4Aggregate {
    pub transport: BenchmarkTransport,
    pub sample_count: usize,
    pub integrity_failures: usize,
    pub unsupported_cases: usize,
    pub failed_cases: usize,
}

/// How many of the records are of a transport and came to a status.
pub open spec fn count_of(
    records: Seq<B4FileRunRecord>,
    transport: BenchmarkTransport,
    status: B4CaseStatus,
) -> nat
    decreases records.len(),
{
    if records.len() == 0 {
        0
    } else {
        count_of(records.drop_last(), transport, status) + if records.last().case.transport
            == transport && records.last().status == status {
            1nat
        } else {
            0
        }
    }
}

pub proof fn lemma_count_bound(
    records: Seq<B4FileRunRecord>,
    transport: BenchmarkTransport,
    status: B4CaseStatus,
)
    ensures
        count_of(records, transport, status) <= records.len(),
    decreases records.len(),
{
    if records.len() > 0 {
        lemma_count_bound(records.drop_last(), transport, status);
    }
}

/// Whether a transport has a record.
pub open spec fn occurs(records: Seq<B4FileRunRecord>, transport: BenchmarkTransport) -> bool {
    exists|i: int| 0 <= i < records.len() && (#[trigger] records[i]).case.transport == transport
}

/// The aggregate of a transport.
pub open spec fn aggregate_of(records: Seq<B4FileRunRecord>, transport: BenchmarkTransport) -> B4Aggregate {
    B4Aggregate {
        transport,
        sample_count: count_of(records, transport, B4CaseStatus::Success) as usize,
        integrity_failures: count_of(records, transport, B4CaseStatus::IntegrityFailure) as usize,
        unsupported_cases: count_of(records, transport, B4CaseStatus::Unsupported) as usize,
        failed_cases: count_of(records, transport, B4CaseStatus::Failed) as usize,
    }
}

/// The aggregate of a transport, where it has a record.
pub open spec fn aggregate_list(records: Seq<B4FileRunRecord>, transport: BenchmarkTransport) -> Seq<
    B4Aggregate,
> {
    if occurs(records, transport) {
        seq![aggregate_of(records, transport)]
    } else {
        Seq::empty()
    }
}

/// The aggregates of the transports that have a record, in the order of their names.
pub open spec fn aggregates_of(records: Seq<B4FileRunRecord>) -> Seq<B4Aggregate> {
    aggregate_list(records, BenchmarkTransport::TcpSendfile) + aggregate_list(
        records,
        BenchmarkTransport::TcpUserspace,
    ) + aggregate_list(records, BenchmarkTransport::Urma)
}

fn count_records(
    records: &Vec<B4FileRunRecord>,
    transport: BenchmarkTransport,
    status: B4CaseStatus,
) -> (count: usize)
    ensures
        count == count_of(records@, transport, status),
{
    let mut count: usize = 0;
    let mut index: usize = 0;
    while index < records.len()
        invariant
            index <= records@.len(),
            count <= index,
            count == count_of(records@.take(index as int), transport, status),
        decreases records@.len() - index,
    {
        proof {
            let longer = records@.take(index + 1);
            assert(longer.drop_last() =~= records@.take(index as int));
            assert(longer.last() == records@[index as int]);
        }
        if records[index].case.transport == transport && records[index].status == status {
            count += 1;
        }
        index += 1;
    }
    assert(records@.take(records@.len() as int) =~= records@);
    count
}

fn has_record(records: &Vec<B4FileRunRecord>, transport: BenchmarkTransport) -> (has: bool)
    ensures
        has == occurs(records@, transport),
{
    let mut index: usize = 0;
    while index < records.len()
        invariant
            index <= records@.len(),
            forall|i: int|
                0 <= i < index ==> (#[trigger] records@[i]).case.transport != transport,
        decreases records@.len() - index,
    {
        if records[index].case.transport == transport {
            assert(records@[index as int].case.transport == transport);
            return true;
        }
        index += 1;
    }
    false
}

fn aggregate(records: &Vec<B4FileRunRecord>, transport: BenchmarkTransport) -> (aggregate: Vec<
    B4Aggregate,
>)
    ensures
        aggregate@ == aggregate_list(records@, transport),
{
    let mut aggregates: Vec<B4Aggregate> = Vec::new();
    if has_record(records, transport) {
        aggregates.push(
            B4Aggregate {
                transport,
                sample_count: count_records(records, transport, B4CaseStatus::Success),
                integrity_failures: count_records(
                    records,
                    transport,
                    B4CaseStatus::IntegrityFailure,
                ),
                unsupported_cases: count_records(records, transport, B4CaseStatus::Unsupported),
                failed_cases: count_records(records, transport, B4CaseStatus::Failed),
            },
        );
    }
    assert(aggregates@ =~= aggregate_list(records@, transport));
    aggregates
}

/// A character as it stands inside a JSON string of a record.
pub open spec fn escaped(ch: char) -> Seq<char> {
    if ch == '"' {
        "\\\""@
    } else if ch == '\\' {
        "\\\\"@
    } else if ch == '\n' {
        "\\n"@
    } else if ch == '\r' {
        "\\r"@
    } else if ch == '\t' {
        "\\t"@
    } else if json::is_control(ch) {
        "\\u"@ + text::hex(ch as u32 as nat, 4)
    } else {
        seq![ch]
    }
}

/// A text as it stands inside a JSON string of a record.
pub open spec fn escaped_all(text: Seq<char>) -> Seq<char>
    decreases text.len(),
{
    if text.len() == 0 {
        Seq::empty()
    } else {
        escaped_all(text.drop_last()) + escaped(text.last())
    }
}

fn escape_json(value: &str) -> (output: String)
    ensures
        output@ == escaped_all(value@),
{
    let mut output = String::new();
    let count: usize = value.unicode_len();
    let mut index: usize = 0;
    assert(value@.take(0) =~= Seq::<char>::empty());
    assert(output@ =~= Seq::<char>::empty());
    while index < count
        invariant
            count == value@.len(),
            index <= count,
            output@ == escaped_all(value@.take(index as int)),
        decreases count - index,
    {
        let ch = value.get_char(index);
        proof {
            let longer = value@.take(index + 1);
            assert(longer.drop_last() =~= value@.take(index as int));
            assert(longer.last() == ch);
        }
        let ghost before = output@;
        if ch == '"' {
            output.append("\\\"");
        } else if ch == '\\' {
            output.append("\\\\");
        } else if ch == '\n' {
            output.append("\\n");
        } else if ch == '\r' {
            output.append("\\r");
        } else if ch == '\t' {
            output.append("\\t");
        } else if is_control_char(ch) {
            output.append("\\u");
            push_hex(&mut output, ch as u32 as u64, 4);
        } else {
            output.push(ch);
        }
        assert(output@ =~= before + escaped(ch));
        index += 1;
    }
    assert(value@.take(value@.len() as int) =~= value@);
    output
}

/// The text of a detail, empty where there is none.
pub open spec fn detail_text(detail: Option<String>) -> Seq<char> {
    match detail {
        Some(detail) => detail@,
        None => Seq::empty(),
    }
}

fn detail_str(detail: &Option<String>) -> (text: String)
    ensures
        text@ == detail_text(*detail),
{
    match detail {
        Some(detail) => detail.as_str().to_owned(),
        None => {
            let text = String::new();
            assert(text@ =~= Seq::<char>::empty());
            text
        },
    }
}

/// A text between quotes.
pub open spec fn quoted(text: Seq<char>) -> Seq<char> {
    "\""@ + text + "\""@
}

fn quote(value: &str) -> (text: String)
    ensures
        text@ == quoted(value@),
{
    let mut text = "\"".to_owned();
    text.append(value);
    text.append("\"");
    text
}

impl B4FileRunRecord {
    /// The record as one line of JSON.
    pub open spec fn json(self, throughput: ThroughputText) -> Seq<char> {
        if self.status == B4CaseStatus::Success {
            json::object(self.result->0.json_fields(throughput.mib_s@, throughput.gbit_s@))
        } else {
            json::object(
                seq![
                    ("record_type"@, quoted("raw"@)),
                    ("case_id"@, quoted(escaped_all(self.case.case_id@))),
                    ("repeat"@, text::decimal(self.case.repeat as nat)),
                    ("transport"@, quoted(self.case.transport.name())),
                    ("status"@, quoted(self.status.name())),
                    ("detail"@, quoted(escaped_all(detail_text(self.detail)))),
                ],
            )
        }
    }

    /// The record as one line of JSON, with the throughput as it is to be printed.
    pub fn to_json_line(&self, throughput: &ThroughputText) -> (line: String)
        requires
            self.wf(),
        ensures
            line@ == self.json(*throughput),
    {
        if self.status == B4CaseStatus::Success {
            if let Some(result) = &self.result {
                return result.to_json_line(throughput.mib_s.as_str(), throughput.gbit_s.as_str());
            }
        }
        let mut object = JsonObject::new();
        object.raw("record_type", quote("raw").as_str());
        object.raw(
            "case_id",
            quote(escape_json(self.case.case_id.as_str()).as_str()).as_str(),
        );
        object.number("repeat", self.case.repeat as u64);
        object.raw("transport", quote(self.case.transport.as_str()).as_str());
        object.raw("status", quote(self.status.as_str()).as_str());
        object.raw(
            "detail",
            quote(escape_json(detail_str(&self.detail).as_str()).as_str()).as_str(),
        );
        assert(object@ =~= seq![
            ("record_type"@, quoted("raw"@)),
            ("case_id"@, quoted(escaped_all(self.case.case_id@))),
            ("repeat"@, text::decimal(self.case.repeat as nat)),
            ("transport"@, quoted(self.case.transport.name())),
            ("status"@, quoted(self.status.name())),
            ("detail"@, quoted(escaped_all(detail_text(self.detail)))),
        ]);
        object.finish()
    }
}

impl B4Aggregate {
    /// Whether the samples are many and spread widely.
    pub open spec fn spreads(self, varies: bool) -> bool {
        self.sample_count >= 5 && varies
    }

    /// Whether the samples are many and spread widely.
    pub fn unstable(&self, varies: bool) -> (unstable: bool)
        ensures
            unstable == self.spreads(varies),
    {
        self.sample_count >= 5 && varies
    }

    /// The members of the aggregate's JSON line.
    pub open spec fn json_fields(self, summary: ThroughputSummary) -> Seq<(Seq<char>, Seq<char>)> {
        seq![
            ("record_type"@, quoted("aggregate"@)),
            ("transport"@, quoted(self.transport.name())),
            ("sample_count"@, text::decimal(self.sample_count as nat)),
            ("integrity_failures"@, text::decimal(self.integrity_failures as nat)),
            ("unsupported_cases"@, text::decimal(self.unsupported_cases as nat)),
            ("failed_cases"@, text::decimal(self.failed_cases as nat)),
            ("throughput_mib_s_median"@, summary.mib_s_median@),
            ("throughput_mib_s_min"@, summary.mib_s_min@),
            ("throughput_mib_s_max"@, summary.mib_s_max@),
            ("throughput_gbit_s_median"@, summary.gbit_s_median@),
            ("cv_percent"@, summary.cv_percent@),
            ("unstable"@, json::boolean(self.spreads(summary.varies))),
        ]
    }

    /// The aggregate as one line of JSON, with the throughputs as they are to be printed.
    pub fn to_json_line(&self, summary: &ThroughputSummary) -> (line: String)
        ensures
            line@ == json::object(self.json_fields(*summary)),
    {
        let mut object = JsonObject::new();
        object.raw("record_type", quote("aggregate").as_str());
        object.raw("transport", quote(self.transport.as_str()).as_str());
        object.number("sample_count", self.sample_count as u64);
        object.number("integrity_failures", self.integrity_failures as u64);
        object.number("unsupported_cases", self.unsupported_cases as u64);
        object.number("failed_cases", self.failed_cases as u64);
        object.raw("throughput_mib_s_median", summary.mib_s_median.as_str());
        object.raw("throughput_mib_s_min", summary.mib_s_min.as_str());
        object.raw("throughput_mib_s_max", summary.mib_s_max.as_str());
        object.raw("throughput_gbit_s_median", summary.gbit_s_median.as_str());
        object.raw("cv_percent", summary.cv_percent.as_str());
        object.flag("unstable", self.unstable(summary.varies));
        assert(object@ =~= self.json_fields(*summary));
        object.finish()
    }
}

/// Whether a text has to be quoted in CSV.
pub open spec fn needs_quotes(text: Seq<char>) -> bool {
    exists|i: int|
        0 <= i < text.len() && (#[trigger] text[i] == ',' || text[i] == '"' || text[i] == '\n'
            || text[i] == '\r')
}

/// A text with every quote doubled.
pub open spec fn doubled(text: Seq<char>) -> Seq<char>
    decreases text.len(),
{
    if text.len() == 0 {
        Seq::empty()
    } else if text.last() == '"' {
        doubled(text.drop_last()) + "\"\""@
    } else {
        doubled(text.drop_last()).push(text.last())
    }
}

/// A text as a field of CSV.
pub open spec fn csv(text: Seq<char>) -> Seq<char> {
    if needs_quotes(text) {
        quoted(doubled(text))
    } else {
        text
    }
}

fn csv_field(value: &str) -> (field: String)
    ensures
        field@ == csv(value@),
{
    let count: usize = value.unicode_len();
    let mut special = false;
    let mut output = String::new();
    let mut index: usize = 0;
    assert(value@.take(0) =~= Seq::<char>::empty());
    assert(output@ =~= Seq::<char>::empty());
    while index < count
        invariant
            count == value@.len(),
            index <= count,
            special == needs_quotes(value@.take(index as int)),
            output@ == doubled(value@.take(index as int)),
        decreases count - index,
    {
        let ch = value.get_char(index);
        proof {
            let shorter = value@.take(index as int);
            let longer = value@.take(index + 1);
            assert(longer.drop_last() =~= shorter);
            assert(longer.last() == ch);
            if needs_quotes(shorter) {
                let i = choose|i: int|
                    0 <= i < shorter.len() && (#[trigger] shorter[i] == ',' || shorter[i] == '"'
                        || shorter[i] == '\n' || shorter[i] == '\r');
                assert(longer[i] == shorter[i]);
            }
            if needs_quotes(longer) {
                let i = choose|i: int|
                    0 <= i < longer.len() && (#[trigger] longer[i] == ',' || longer[i] == '"'
                        || longer[i] == '\n' || longer[i] == '\r');
                if i < index {
                    assert(shorter[i] == longer[i]);
                }
            }
        }
        if ch == ',' || ch == '"' || ch == '\n' || ch == '\r' {
            special = true;
            assert(value@.take(index + 1)[index as int] == ch);
        }
        let ghost before = output@;
        if ch == '"' {
            output.append("\"\"");
            assert(output@ =~= before + "\"\""@);
        } else {
            output.push(ch);
        }
        index += 1;
    }
    assert(value@.take(value@.len() as int) =~= value@);
    if special {
        quote(output.as_str())
    } else {
        value.to_owned()
    }
}

/// A text without quotes, commas or line ends stands in CSV as it is, and one with them between
/// quotes: either way a field holds no line end or comma that a reader takes for its own.
pub proof fn plain_fields_stand_as_they_are(text: Seq<char>)
    ensures
        needs_quotes(text) ==> csv(text) == quoted(doubled(text)),
        !needs_quotes(text) ==> csv(text) == text && doubled(text) == text,
    decreases text.len(),
{
    if !needs_quotes(text) && text.len() > 0 {
        let shorter = text.drop_last();
        assert(!needs_quotes(shorter)) by {
            if needs_quotes(shorter) {
                let i = choose|i: int|
                    0 <= i < shorter.len() && (#[trigger] shorter[i] == ',' || shorter[i] == '"'
                        || shorter[i] == '\n' || shorter[i] == '\r');
                assert(text[i] == shorter[i]);
            }
        }
        plain_fields_stand_as_they_are(shorter);
        assert(text[text.len() - 1] == text.last());
        assert(doubled(text) =~= text);
    }
    if text.len() == 0 {
        assert(doubled(text) =~= text);
    }
}

/// A number, or nothing.
pub open spec fn optional_text(value: Option<u64>) -> Seq<char> {
    match value {
        Some(value) => text::decimal(value as nat),
        None => Seq::empty(),
    }
}

fn optional_u64(value: Option<u64>) -> (text: String)
    ensures
        text@ == optional_text(value),
{
    match value {
        Some(value) => decimal_string(value),
        None => {
            let text = String::new();
            assert(text@ =~= Seq::<char>::empty());
            text
        },
    }
}

fn boolean_text(value: bool) -> (text: String)
    ensures
        text@ == json::boolean(value),
{
    if value {
        "true".to_owned()
    } else {
        "false".to_owned()
    }
}

fn empty() -> (text: String)
    ensures
        text@ == Seq::<char>::empty(),
{
    let text = String::new();
    assert(text@ =~= Seq::<char>::empty());
    text
}

/// The head of the CSV report.
pub open spec fn csv_header() -> Seq<char> {
    "record_type,status,case_id,repeat,transport,bytes,chunk_size,window,timing_mode,completion_policy,elapsed_ns,parent_elapsed_ns,throughput_mib_s,throughput_gbit_s,integrity_ok,detail\n"@
}

impl B4FileRunRecord {
    /// The fields of the record in CSV.
    pub open spec fn csv_fields(self, throughput: ThroughputText) -> Seq<Seq<char>> {
        let parent = match self.result {
            Some(result) => if result.transport_stats.map().dom().contains("parent_elapsed_ns"@) {
                Some(result.transport_stats.map()["parent_elapsed_ns"@])
            } else {
                None
            },
            None => None,
        };
        seq![
            "raw"@,
            self.status.name(),
            csv(self.case.case_id@),
            text::decimal(self.case.repeat as nat),
            self.case.transport.name(),
            text::decimal(
                match self.result {
                    Some(result) => result.bytes as nat,
                    None => self.case.transfer_bytes as nat,
                },
            ),
            text::decimal(self.case.chunk_size as nat),
            text::decimal(self.case.window as nat),
            self.case.timing_mode.name(),
            self.case.completion_policy.name(),
            optional_text(
                match self.result {
                    Some(result) => Some(result.elapsed_ns),
                    None => None,
                },
            ),
            optional_text(parent),
            if self.result is Some {
                throughput.mib_s@
            } else {
                Seq::empty()
            },
            if self.result is Some {
                throughput.gbit_s@
            } else {
                Seq::empty()
            },
            json::boolean(
                match self.result {
                    Some(result) => result.integrity.length_ok && result.integrity.digest_ok,
                    None => false,
                },
            ),
            csv(detail_text(self.detail)),
        ]
    }

    fn csv_line(&self, throughput: &ThroughputText) -> (line: String)
        requires
            self.wf(),
        ensures
            line@ == text::joined(self.csv_fields(*throughput), ","@) + "\n"@,
    {
        let mut bytes: u64 = self.case.transfer_bytes;
        let mut elapsed: Option<u64> = None;
        let mut parent: Option<u64> = None;
        let mut mib = empty();
        let mut gbit = empty();
        let mut intact = false;
        if let Some(result) = &self.result {
            bytes = result.bytes;
            elapsed = Some(result.elapsed_ns);
            parent = result.transport_stats.get("parent_elapsed_ns");
            mib = throughput.mib_s.as_str().to_owned();
            gbit = throughput.gbit_s.as_str().to_owned();
            intact = result.integrity.is_ok();
        }
        let mut fields: Vec<String> = Vec::new();
        fields.push("raw".to_owned());
        fields.push(self.status.as_str().to_owned());
        fields.push(csv_field(self.case.case_id.as_str()));
        fields.push(decimal_string(self.case.repeat as u64));
        fields.push(self.case.transport.as_str().to_owned());
        fields.push(decimal_string(bytes));
        fields.push(decimal_string(self.case.chunk_size));
        fields.push(decimal_string(self.case.window as u64));
        fields.push(self.case.timing_mode.as_str().to_owned());
        fields.push(self.case.completion_policy.as_str().to_owned());
        fields.push(optional_u64(elapsed));
        fields.push(optional_u64(parent));
        fields.push(mib);
        fields.push(gbit);
        fields.push(boolean_text(intact));
        fields.push(csv_field(detail_str(&self.detail).as_str()));
        assert(text::views(fields@) =~= self.csv_fields(*throughput));
        let mut line = join(&fields, ",");
        line.append("\n");
        line
    }
}

impl B4Aggregate {
    /// The spread and the failures of the aggregate, in words.
    pub open spec fn summary_text(self, summary: ThroughputSummary) -> Seq<char> {
        "samples="@ + text::decimal(self.sample_count as nat) + ";min_mib_s="@ + summary.mib_s_min@
            + ";max_mib_s="@ + summary.mib_s_max@ + ";cv_percent="@ + summary.cv_percent@
            + ";integrity_failures="@ + text::decimal(self.integrity_failures as nat)
            + ";unsupported="@ + text::decimal(self.unsupported_cases as nat) + ";failed="@
            + text::decimal(self.failed_cases as nat)
    }

    /// The fields of the aggregate in CSV.
    pub open spec fn csv_fields(self, summary: ThroughputSummary) -> Seq<Seq<char>> {
        seq![
            "aggregate"@,
            if self.spreads(summary.varies) {
                "unstable"@
            } else {
                "stable"@
            },
            Seq::empty(),
            Seq::empty(),
            self.transport.name(),
            Seq::empty(),
            Seq::empty(),
            Seq::empty(),
            Seq::empty(),
            Seq::empty(),
            Seq::empty(),
            Seq::empty(),
            summary.mib_s_median@,
            summary.gbit_s_median@,
            Seq::empty(),
            csv(self.summary_text(summary)),
        ]
    }

    fn csv_line(&self, summary: &ThroughputSummary) -> (line: String)
        ensures
            line@ == text::joined(self.csv_fields(*summary), ","@) + "\n"@,
    {
        let mut detail = "samples=".to_owned();
        detail.append(decimal_string(self.sample_count as u64).as_str());
        detail.append(";min_mib_s=");
        detail.append(summary.mib_s_min.as_str());
        detail.append(";max_mib_s=");
        detail.append(summary.mib_s_max.as_str());
        detail.append(";cv_percent=");
        detail.append(summary.cv_percent.as_str());
        detail.append(";integrity_failures=");
        detail.append(decimal_string(self.integrity_failures as u64).as_str());
        detail.append(";unsupported=");
        detail.append(decimal_string(self.unsupported_cases as u64).as_str());
        detail.append(";failed=");
        detail.append(decimal_string(self.failed_cases as u64).as_str());
        let mut fields: Vec<String> = Vec::new();
        fields.push("aggregate".to_owned());
        fields.push(
            if self.unstable(summary.varies) {
                "unstable".to_owned()
            } else {
                "stable".to_owned()
            },
        );
        fields.push(empty());
        fields.push(empty());
        fields.push(self.transport.as_str().to_owned());
        fields.push(empty());
        fields.push(empty());
        fields.push(empty());
        fields.push(empty());
        fields.push(empty());
        fields.push(empty());
        fields.push(empty());
        fields.push(summary.mib_s_median.as_str().to_owned());
        fields.push(summary.gbit_s_median.as_str().to_owned());
        fields.push(empty());
        fields.push(csv_field(detail.as_str()));
        assert(text::views(fields@) =~= self.csv_fields(*summary));
        let mut line = join(&fields, ",");
        line.append("\n");
        line
    }
}

/// The report on a matrix.
pub struct B4Report {
    pub records: Vec<B4FileRunRecord>,
    pub aggregates: Vec<B4Aggregate>,
}

/// The CSV lines of some records.
pub open spec fn records_csv(records: Seq<B4FileRunRecord>, throughputs: Seq<ThroughputText>) -> Seq<
    char,
>
    decreases records.len(),
{
    if records.len() == 0 {
        Seq::empty()
    } else {
        records_csv(records.drop_last(), throughputs) + text::joined(
            records.last().csv_fields(throughputs[records.len() - 1]),
            ","@,
        ) + "\n"@
    }
}

/// The CSV lines of some aggregates.
pub open spec fn aggregates_csv(aggregates: Seq<B4Aggregate>, summaries: Seq<ThroughputSummary>) -> Seq<
    char,
>
    decreases aggregates.len(),
{
    if aggregates.len() == 0 {
        Seq::empty()
    } else {
        aggregates_csv(aggregates.drop_last(), summaries) + text::joined(
            aggregates.last().csv_fields(summaries[aggregates.len() - 1]),
            ","@,
        ) + "\n"@
    }
}

impl B4Report {
    /// The records are sound, and the aggregates are theirs.
    pub open spec fn wf(self) -> bool {
        &&& forall|i: int| 0 <= i < self.records@.len() ==> (#[trigger] self.records@[i]).wf()
        &&& self.aggregates@ == aggregates_of(self.records@)
    }

    /// The report on some records.
    pub fn from_records(records: Vec<B4FileRunRecord>) -> (report: Self)
        requires
            forall|i: int| 0 <= i < records@.len() ==> (#[trigger] records@[i]).wf(),
        ensures
            report.wf(),
            report.records == records,
    {
        let mut aggregates = aggregate(&records, BenchmarkTransport::TcpSendfile);
        let mut userspace = aggregate(&records, BenchmarkTransport::TcpUserspace);
        let mut urma = aggregate(&records, BenchmarkTransport::Urma);
        aggregates.append(&mut userspace);
        aggregates.append(&mut urma);
        assert(aggregates@ =~= aggregates_of(records@));
        B4Report { records, aggregates }
    }

    /// The report as lines of JSON: the records, then the aggregates.
    pub fn json_lines(&self, throughputs: &Vec<ThroughputText>, summaries: &Vec<ThroughputSummary>) -> (lines:
        Vec<String>)
        requires
            self.wf(),
            throughputs@.len() == self.records@.len(),
            summaries@.len() == self.aggregates@.len(),
        ensures
            lines@.len() == self.records@.len() + self.aggregates@.len(),
            forall|i: int|
                0 <= i < self.records@.len() ==> (#[trigger] lines@[i])@ == self.records@[i].json(
                    throughputs@[i],
                ),
            forall|i: int|
                0 <= i < self.aggregates@.len() ==> (#[trigger] lines@[self.records@.len() + i])@
                    == json::object(self.aggregates@[i].json_fields(summaries@[i])),
    {
        let mut lines: Vec<String> = Vec::new();
        let mut index: usize = 0;
        while index < self.records.len()
            invariant
                self.wf(),
                throughputs@.len() == self.records@.len(),
                index <= self.records@.len(),
                lines@.len() == index,
                forall|i: int|
                    0 <= i < index ==> (#[trigger] lines@[i])@ == self.records@[i].json(
                        throughputs@[i],
                    ),
            decreases self.records@.len() - index,
        {
            lines.push(self.records[index].to_json_line(&throughputs[index]));
            index += 1;
        }
        let mut other: usize = 0;
        while other < self.aggregates.len()
            invariant
                summaries@.len() == self.aggregates@.len(),
                other <= self.aggregates@.len(),
                lines@.len() == self.records@.len() + other,
                forall|i: int|
                    0 <= i < self.records@.len() ==> (#[trigger] lines@[i])@
                        == self.records@[i].json(throughputs@[i]),
                forall|i: int|
                    0 <= i < other ==> (#[trigger] lines@[self.records@.len() + i])@
                        == json::object(self.aggregates@[i].json_fields(summaries@[i])),
            decreases self.aggregates@.len() - other,
        {
            lines.push(self.aggregates[other].to_json_line(&summaries[other]));
            other += 1;
        }
        lines
    }

    /// The report as CSV: a head, the records, then the aggregates.
    pub fn to_csv(&self, throughputs: &Vec<ThroughputText>, summaries: &Vec<ThroughputSummary>) -> (output:
        String)
        requires
            self.wf(),
            throughputs@.len() == self.records@.len(),
            summaries@.len() == self.aggregates@.len(),
        ensures
            output@ == csv_header() + records_csv(self.records@, throughputs@) + aggregates_csv(
                self.aggregates@,
                summaries@,
            ),
    {
        let mut output =
            "record_type,status,case_id,repeat,transport,bytes,chunk_size,window,timing_mode,completion_policy,elapsed_ns,parent_elapsed_ns,throughput_mib_s,throughput_gbit_s,integrity_ok,detail\n".to_owned();
        let ghost head = output@;
        let mut index: usize = 0;
        assert(head + records_csv(self.records@.take(0), throughputs@) =~= head);
        while index < self.records.len()
            invariant
                self.wf(),
                throughputs@.len() == self.records@.len(),
                index <= self.records@.len(),
                output@ == head + records_csv(self.records@.take(index as int), throughputs@),
            decreases self.records@.len() - index,
        {
            let ghost before = output@;
            proof {
                let longer = self.records@.take(index + 1);
                assert(longer.drop_last() =~= self.records@.take(index as int));
                assert(longer.last() == self.records@[index as int]);
            }
            output.append(self.records[index].csv_line(&throughputs[index]).as_str());
            index += 1;
            assert(output@ =~= head + records_csv(self.records@.take(index as int), throughputs@));
        }
        assert(self.records@.take(self.records@.len() as int) =~= self.records@);
        let ghost body = output@;
        let mut other: usize = 0;
        assert(body + aggregates_csv(self.aggregates@.take(0), summaries@) =~= body);
        while other < self.aggregates.len()
            invariant
                summaries@.len() == self.aggregates@.len(),
                other <= self.aggregates@.len(),
                output@ == body + aggregates_csv(self.aggregates@.take(other as int), summaries@),
            decreases self.aggregates@.len() - other,
        {
            proof {
                let longer = self.aggregates@.take(other + 1);
                assert(longer.drop_last() =~= self.aggregates@.take(other as int));
                assert(longer.last() == self.aggregates@[other as int]);
            }
            output.append(self.aggregates[other].csv_line(&summaries[other]).as_str());
            other += 1;
            assert(output@ =~= body + aggregates_csv(
                self.aggregates@.take(other as int),
                summaries@,
            ));
        }
        assert(self.aggregates@.take(self.aggregates@.len() as int) =~= self.aggregates@);
        output
    }
}

/// Every record counts once: a transport's samples and failures add up to its records.
pub proof fn every_record_counts_once(records: Seq<B4FileRunRecord>, transport: BenchmarkTransport)
    ensures
        count_of(records, transport, B4CaseStatus::Success) + count_of(
            records,
            transport,
            B4CaseStatus::IntegrityFailure,
        ) + count_of(records, transport, B4CaseStatus::Unsupported) + count_of(
            records,
            transport,
            B4CaseStatus::Failed,
        ) == records.filter(|record: B4FileRunRecord| record.case.transport == transport).len(),
    decreases records.len(),
{
    reveal(Seq::filter);
    if records.len() > 0 {
        every_record_counts_once(records.drop_last(), transport);
    }
}

} // verus!
