//! What a sound result of a matrix of file transfers is, and what the report says of it.

use vstd::prelude::*;

use super::report;
use super::report::{B4Aggregate, ThroughputSummary, ThroughputText};
use super::{
    counters_fault, detail_view, first_missing, is_record_of, result_fault, sendfile_names, urma_names,
    userspace_names, B4CaseStatus, B4ExecutionOutcome, B4FileMatrixConfig, B4FileRunRecord, B4TransportDispatch,
};
use crate::benchmark;
use crate::benchmark::{BenchmarkResult, BenchmarkScenario, BenchmarkTransport, CaseView};
use crate::json;
use crate::text;

verus! {

proof fn lemma_present(counters: Map<Seq<char>, u64>, names: Seq<Seq<char>>)
    ensures
        first_missing(counters, names) is None <==> forall|i: int|
            0 <= i < names.len() ==> counters.dom().contains(#[trigger] names[i]),
    decreases names.len(),
{
    if names.len() > 0 {
        let shorter = names.drop_last();
        lemma_present(counters, shorter);
        if first_missing(counters, names) is None {
            assert forall|i: int| 0 <= i < names.len() implies counters.dom().contains(
                #[trigger] names[i],
            ) by {
                if i < names.len() - 1 {
                    assert(shorter[i] == names[i]);
                }
            }
        } else if forall|i: int|
            0 <= i < names.len() ==> counters.dom().contains(#[trigger] names[i]) {
            assert forall|i: int| 0 <= i < shorter.len() implies counters.dom().contains(
                #[trigger] shorter[i],
            ) by {
                assert(shorter[i] == names[i]);
            }
            assert(counters.dom().contains(names[names.len() - 1]));
        }
    }
}

/// What every sound result has, whatever its transport: it is on its case, its payload arrived intact,
/// and its counters say that all of it was sent and received and how long the sender took.
pub open spec fn arrived(case: CaseView, result: BenchmarkResult) -> bool {
    let counters = result.transport_stats.map();
    &&& result.case_id@ == case.case_id
    &&& result.repeat == case.repeat
    &&& result.transport == case.transport
    &&& result.scenario == BenchmarkScenario::File
    &&& result.chunk_size == case.chunk_size
    &&& result.window == case.window
    &&& result.timing_mode == case.timing_mode
    &&& result.completion_policy == case.completion_policy
    &&& result.integrity.length_ok
    &&& result.integrity.digest_ok
    &&& counters.dom().contains("bytes_sent"@)
    &&& counters["bytes_sent"@] == case.transfer_bytes
    &&& counters.dom().contains("bytes_received"@)
    &&& counters["bytes_received"@] == case.transfer_bytes
    &&& counters.dom().contains("parent_elapsed_ns"@)
}

/// A result of an URMA case is sound exactly where it arrived, all its counters are there, nothing is
/// outstanding, every send was retired and every receive completed, no completion failed, the window
/// and the payload are those of the case, and a window of more than one message was used where there
/// was more than one message. How many send completions were seen does not matter: one completion
/// retires many sends.
pub proof fn urma_results_are_sound_exactly_when(case: CaseView, result: BenchmarkResult)
    requires
        case.transport == BenchmarkTransport::Urma,
        case.chunk_size > 0,
    ensures
        result_fault(case, result) is None <==> ({
            let counters = result.transport_stats.map();
            &&& arrived(case, result)
            &&& counters.dom().contains("send_post"@)
            &&& counters.dom().contains("recv_post"@)
            &&& counters.dom().contains("send_cqe"@)
            &&& counters.dom().contains("send_retired"@)
            &&& counters.dom().contains("recv_cqe"@)
            &&& counters.dom().contains("cqe_error"@)
            &&& counters.dom().contains("poll_calls"@)
            &&& counters.dom().contains("empty_polls"@)
            &&& counters.dom().contains("send_jfc_poll_calls"@)
            &&& counters.dom().contains("recv_jfc_poll_calls"@)
            &&& counters.dom().contains("yield_count"@)
            &&& counters.dom().contains("sleep_count"@)
            &&& counters.dom().contains("backoff_sleep_ns"@)
            &&& counters.dom().contains("jfc_rearm_count"@)
            &&& counters.dom().contains("event_wait_count"@)
            &&& counters.dom().contains("event_wakeup_count"@)
            &&& counters.dom().contains("event_timeout_count"@)
            &&& counters.dom().contains("spurious_wakeup_count"@)
            &&& counters.dom().contains("event_wait_ns"@)
            &&& counters.dom().contains("max_event_wait_ns"@)
            &&& counters.dom().contains("max_empty_streak"@)
            &&& counters.dom().contains("nonempty_polls"@)
            &&& counters.dom().contains("completion_batch_total"@)
            &&& counters.dom().contains("avg_poll_batch_milli"@)
            &&& counters.dom().contains("empty_poll_ratio_ppm"@)
            &&& counters.dom().contains("max_completion_poll_gap_ns"@)
            &&& counters.dom().contains("max_outstanding_send"@)
            &&& counters.dom().contains("current_outstanding_send"@)
            &&& counters.dom().contains("current_outstanding_recv"@)
            &&& counters.dom().contains("configured_window"@)
            &&& counters.dom().contains("configured_receive_credit"@)
            &&& counters.dom().contains("slot_size"@)
            &&& counters.dom().contains("effective_payload_size"@)
            &&& counters.dom().contains("tx_slot_count"@)
            &&& counters.dom().contains("rx_slot_count"@)
            &&& counters.dom().contains("total_registered_bytes"@)
            &&& counters["current_outstanding_send"@] == 0
            &&& counters["current_outstanding_recv"@] == 0
            &&& counters["send_post"@] == counters["send_retired"@]
            &&& counters["recv_post"@] == counters["recv_cqe"@]
            &&& counters["cqe_error"@] == 0
            &&& counters["configured_window"@] == case.window
            &&& counters["effective_payload_size"@] == case.chunk_size
            &&& case.window > 1 && case.transfer_bytes > case.chunk_size
                ==> counters["max_outstanding_send"@] > 1
        }),
{
    let counters = result.transport_stats.map();
    let names = urma_names();
    lemma_present(counters, names);
    assert(names[0] == "send_post"@);
    assert(names[1] == "recv_post"@);
    assert(names[2] == "send_cqe"@);
    assert(names[3] == "send_retired"@);
    assert(names[4] == "recv_cqe"@);
    assert(names[5] == "cqe_error"@);
    assert(names[6] == "poll_calls"@);
    assert(names[7] == "empty_polls"@);
    assert(names[8] == "send_jfc_poll_calls"@);
    assert(names[9] == "recv_jfc_poll_calls"@);
    assert(names[10] == "yield_count"@);
    assert(names[11] == "sleep_count"@);
    assert(names[12] == "backoff_sleep_ns"@);
    assert(names[13] == "jfc_rearm_count"@);
    assert(names[14] == "event_wait_count"@);
    assert(names[15] == "event_wakeup_count"@);
    assert(names[16] == "event_timeout_count"@);
    assert(names[17] == "spurious_wakeup_count"@);
    assert(names[18] == "event_wait_ns"@);
    assert(names[19] == "max_event_wait_ns"@);
    assert(names[20] == "max_empty_streak"@);
    assert(names[21] == "nonempty_polls"@);
    assert(names[22] == "completion_batch_total"@);
    assert(names[23] == "avg_poll_batch_milli"@);
    assert(names[24] == "empty_poll_ratio_ppm"@);
    assert(names[25] == "max_completion_poll_gap_ns"@);
    assert(names[26] == "max_outstanding_send"@);
    assert(names[27] == "current_outstanding_send"@);
    assert(names[28] == "current_outstanding_recv"@);
    assert(names[29] == "configured_window"@);
    assert(names[30] == "configured_receive_credit"@);
    assert(names[31] == "slot_size"@);
    assert(names[32] == "effective_payload_size"@);
    assert(names[33] == "tx_slot_count"@);
    assert(names[34] == "rx_slot_count"@);
    assert(names[35] == "total_registered_bytes"@);
    lemma_two_chunks(case.transfer_bytes as nat, case.chunk_size as nat);
}

proof fn lemma_two_chunks(total: nat, chunk: nat)
    requires
        chunk > 0,
    ensures
        benchmark::chunks_of(total, chunk) >= 2 <==> total > chunk,
{
    benchmark::chunks_cover_the_transfer(total, chunk);
    let count = benchmark::chunks_of(total, chunk);
    assert(count >= 2 <==> total > chunk) by (nonlinear_arith)
        requires
            chunk > 0,
            total <= count * chunk,
            total > 0 ==> count > 0 && (count - 1) * chunk < total,
            total == 0 ==> count == 0,
    ;
}

/// How many send completions were seen does not decide whether a result is sound.
pub proof fn send_completions_do_not_decide(
    counters: Map<Seq<char>, u64>,
    case: CaseView,
    seen: u64,
)
    requires
        counters.dom().contains("send_cqe"@),
        case.transport == BenchmarkTransport::Urma,
    ensures
        counters_fault(counters.insert("send_cqe"@, seen), case) == counters_fault(counters, case),
{
    let other = counters.insert("send_cqe"@, seen);
    lemma_same_missing(counters, other, urma_names());
    reveal_strlit("send_cqe");
    reveal_strlit("current_outstanding_send");
    reveal_strlit("current_outstanding_recv");
    reveal_strlit("send_post");
    reveal_strlit("send_retired");
    reveal_strlit("recv_post");
    reveal_strlit("recv_cqe");
    reveal_strlit("cqe_error");
    reveal_strlit("configured_window");
    reveal_strlit("effective_payload_size");
    reveal_strlit("max_outstanding_send");
    assert("send_cqe"@.len() == 8);
    assert("send_cqe"@[0] == 's' && "recv_cqe"@[0] == 'r');
}

proof fn lemma_same_missing(
    left: Map<Seq<char>, u64>,
    right: Map<Seq<char>, u64>,
    names: Seq<Seq<char>>,
)
    requires
        left.dom() =~= right.dom(),
    ensures
        first_missing(left, names) == first_missing(right, names),
    decreases names.len(),
{
    if names.len() > 0 {
        lemma_same_missing(left, right, names.drop_last());
    }
}

/// A result of a userspace TCP case is sound exactly where it arrived and its calls and partial writes
/// were counted.
pub proof fn userspace_results_are_sound_exactly_when(case: CaseView, result: BenchmarkResult)
    requires
        case.transport == BenchmarkTransport::TcpUserspace,
    ensures
        result_fault(case, result) is None <==> ({
            let counters = result.transport_stats.map();
            &&& arrived(case, result)
            &&& counters.dom().contains("parent_read_calls"@)
            &&& counters.dom().contains("parent_write_calls"@)
            &&& counters.dom().contains("child_read_calls"@)
            &&& counters.dom().contains("partial_write_count"@)
        }),
{
    let names = userspace_names();
    lemma_present(result.transport_stats.map(), names);
    assert(names[0] == "parent_read_calls"@);
    assert(names[1] == "parent_write_calls"@);
    assert(names[2] == "child_read_calls"@);
    assert(names[3] == "partial_write_count"@);
}

/// A result of a `sendfile` case is sound exactly where it arrived, its `sendfile` calls were counted,
/// and the sender neither read nor wrote the payload itself.
pub proof fn sendfile_results_are_sound_exactly_when(case: CaseView, result: BenchmarkResult)
    requires
        case.transport == BenchmarkTransport::TcpSendfile,
    ensures
        result_fault(case, result) is None <==> ({
            let counters = result.transport_stats.map();
            &&& arrived(case, result)
            &&& counters.dom().contains("sendfile_calls"@)
            &&& counters.dom().contains("partial_sendfile_count"@)
            &&& counters.dom().contains("parent_read_calls"@)
            &&& counters["parent_read_calls"@] == 0
            &&& counters.dom().contains("parent_write_calls"@)
            &&& counters["parent_write_calls"@] == 0
        }),
{
    let names = sendfile_names();
    lemma_present(result.transport_stats.map(), names);
    assert(names[0] == "sendfile_calls"@);
    assert(names[1] == "partial_sendfile_count"@);
}

/// A case of a matrix is run by the transport that it names, exactly where it is valid and on files.
pub proof fn cases_run_on_their_transport(case: CaseView)
    ensures
        B4TransportDispatch::of(case) is Ok <==> case.error() is None && case.scenario
            == BenchmarkScenario::File,
        B4TransportDispatch::of(case) matches Ok(dispatch) ==> {
            &&& dispatch == B4TransportDispatch::TcpUserspace <==> case.transport
                == BenchmarkTransport::TcpUserspace
            &&& dispatch == B4TransportDispatch::TcpSendfile <==> case.transport
                == BenchmarkTransport::TcpSendfile
            &&& dispatch == B4TransportDispatch::Urma <==> case.transport
                == BenchmarkTransport::Urma
        },
{
}

/// A matrix has cases exactly where it repeats, has an input and a transport, names no transport twice,
/// has no more cases than can be counted, and each transport's case is valid, both by itself and under
/// its full name.
pub proof fn matrices_are_valid_exactly_when(config: B4FileMatrixConfig)
    ensures
        config.cases_error() is None <==> {
            &&& config.repeat_count > 0
            &&& config.input_path@.len() > 0
            &&& config.transports@.len() > 0
            &&& config.transports@.no_duplicates()
            &&& config.transports@.len() * config.repeat_count <= usize::MAX
            &&& forall|i: int|
                0 <= i < config.transports@.len() ==> {
                    &&& config.case_view(
                        config.case_id@,
                        1,
                        #[trigger] config.transports@[i],
                    ).error() is None
                    &&& config.expanded(config.transports@[i], 1).error() is None
                }
        },
{
    lemma_transports(config, config.transports@);
    lemma_expansions(config, config.transports@);
}

proof fn lemma_transports(config: B4FileMatrixConfig, transports: Seq<BenchmarkTransport>)
    ensures
        config.transports_error(transports) is None <==> transports.no_duplicates() && forall|i: int|
            0 <= i < transports.len() ==> config.case_view(
                config.case_id@,
                1,
                #[trigger] transports[i],
            ).error() is None,
    decreases transports.len(),
{
    if transports.len() > 0 {
        let earlier = transports.drop_last();
        lemma_transports(config, earlier);
        let last = transports.len() - 1;
        if config.transports_error(transports) is None {
            assert forall|i: int| 0 <= i < transports.len() implies config.case_view(
                config.case_id@,
                1,
                #[trigger] transports[i],
            ).error() is None by {
                if i < last {
                    assert(earlier[i] == transports[i]);
                }
            }
            assert forall|i: int, j: int|
                0 <= i < j < transports.len() implies transports[i] != transports[j] by {
                assert(earlier[i] == transports[i]);
                if j < last {
                    assert(earlier[j] == transports[j]);
                }
            }
        } else if transports.no_duplicates() && forall|i: int|
            0 <= i < transports.len() ==> config.case_view(
                config.case_id@,
                1,
                #[trigger] transports[i],
            ).error() is None {
            assert forall|i: int, j: int|
                0 <= i < earlier.len() && 0 <= j < earlier.len() && i != j implies earlier[i]
                != earlier[j] by {
                assert(transports[i] != transports[j]);
            }
            assert forall|i: int| 0 <= i < earlier.len() implies config.case_view(
                config.case_id@,
                1,
                #[trigger] earlier[i],
            ).error() is None by {
                assert(earlier[i] == transports[i]);
            }
            if earlier.contains(transports.last()) {
                let i = choose|i: int| 0 <= i < earlier.len() && earlier[i] == transports.last();
                assert(transports[i] == transports[last]);
            }
            assert(config.case_view(config.case_id@, 1, transports[last]).error() is None);
        }
    }
}

proof fn lemma_expansions(config: B4FileMatrixConfig, transports: Seq<BenchmarkTransport>)
    ensures
        config.expansion_error(transports) is None <==> forall|i: int|
            0 <= i < transports.len() ==> config.expanded(#[trigger] transports[i], 1).error() is None,
    decreases transports.len(),
{
    if transports.len() > 0 {
        let earlier = transports.drop_last();
        lemma_expansions(config, earlier);
        if config.expansion_error(transports) is None {
            assert forall|i: int| 0 <= i < transports.len() implies config.expanded(
                #[trigger] transports[i],
                1,
            ).error() is None by {
                if i < transports.len() - 1 {
                    assert(earlier[i] == transports[i]);
                }
            }
        } else if forall|i: int|
            0 <= i < transports.len() ==> config.expanded(#[trigger] transports[i], 1).error()
                is None {
            assert forall|i: int| 0 <= i < earlier.len() implies config.expanded(
                #[trigger] earlier[i],
                1,
            ).error() is None by {
                assert(earlier[i] == transports[i]);
            }
            assert(config.expanded(transports[transports.len() - 1], 1).error() is None);
        }
    }
}

/// The cases of a matrix are each transport's repeats in turn, counted from one, with the size, the
/// chunks, the window, the timing, the completion and the seed of the matrix, under its name and the
/// transport's.
pub proof fn matrices_list_every_repeat(
    config: B4FileMatrixConfig,
    cases: Seq<CaseView>,
    transport: int,
    repeat: int,
)
    requires
        config.lists(cases, config.transports@.len()),
        0 <= transport < config.transports@.len(),
        0 <= repeat < config.repeat_count,
    ensures
        ({
            let case = cases[transport * config.repeat_count + repeat];
            &&& cases.len() == config.transports@.len() * config.repeat_count
            &&& case.case_id == config.case_id@ + "-"@ + config.transports@[transport].name()
            &&& case.repeat == repeat + 1
            &&& case.scenario == BenchmarkScenario::File
            &&& case.transport == config.transports@[transport]
            &&& case.transfer_bytes == config.transfer_bytes
            &&& case.chunk_size == config.chunk_size
            &&& case.window == config.window
            &&& case.timing_mode == config.timing_mode
            &&& case.completion_policy == config.completion_policy
            &&& case.data_seed == config.data_seed
        }),
{
}

/// Records are counted one by one: those of two runs together are those of the first and those of the
/// second, and one record counts for its own transport and status alone.
pub proof fn counts_add_up(
    earlier: Seq<B4FileRunRecord>,
    later: Seq<B4FileRunRecord>,
    record: B4FileRunRecord,
    transport: BenchmarkTransport,
    status: B4CaseStatus,
)
    ensures
        report::count_of(earlier + later, transport, status) == report::count_of(
            earlier,
            transport,
            status,
        ) + report::count_of(later, transport, status),
        report::count_of(seq![record], transport, status) == if record.case.transport == transport
            && record.status == status {
            1nat
        } else {
            0nat
        },
    decreases later.len(),
{
    assert(seq![record].drop_last() =~= Seq::<B4FileRunRecord>::empty());
    reveal_with_fuel(report::count_of, 2);
    if later.len() == 0 {
        assert(earlier + later =~= earlier);
    } else {
        counts_add_up(earlier, later.drop_last(), record, transport, status);
        assert((earlier + later).drop_last() =~= earlier + later.drop_last());
    }
}

/// The report has one aggregate for each transport that has a record, and no other, and it counts what
/// came of that transport's cases.
pub proof fn aggregates_cover_their_transports(
    records: Seq<B4FileRunRecord>,
    transport: BenchmarkTransport,
)
    requires
        records.len() <= usize::MAX,
    ensures
        ({
            let aggregates = report::aggregates_of(records);
            let has = exists|i: int|
                0 <= i < records.len() && (#[trigger] records[i]).case.transport == transport;
            &&& has <==> exists|i: int|
                0 <= i < aggregates.len() && (#[trigger] aggregates[i]).transport == transport
            &&& forall|i: int, j: int|
                0 <= i < j < aggregates.len() ==> (#[trigger] aggregates[i]).transport != (
                #[trigger] aggregates[j]).transport
            &&& forall|i: int|
                0 <= i < aggregates.len() && (#[trigger] aggregates[i]).transport == transport ==> {
                    &&& aggregates[i].sample_count == report::count_of(
                        records,
                        transport,
                        B4CaseStatus::Success,
                    )
                    &&& aggregates[i].integrity_failures == report::count_of(
                        records,
                        transport,
                        B4CaseStatus::IntegrityFailure,
                    )
                    &&& aggregates[i].unsupported_cases == report::count_of(
                        records,
                        transport,
                        B4CaseStatus::Unsupported,
                    )
                    &&& aggregates[i].failed_cases == report::count_of(
                        records,
                        transport,
                        B4CaseStatus::Failed,
                    )
                }
        }),
{
    let first = report::aggregate_list(records, BenchmarkTransport::TcpSendfile);
    let second = report::aggregate_list(records, BenchmarkTransport::TcpUserspace);
    let third = report::aggregate_list(records, BenchmarkTransport::Urma);
    let aggregates = report::aggregates_of(records);
    report::lemma_count_bound(records, transport, B4CaseStatus::Success);
    report::lemma_count_bound(records, transport, B4CaseStatus::IntegrityFailure);
    report::lemma_count_bound(records, transport, B4CaseStatus::Unsupported);
    report::lemma_count_bound(records, transport, B4CaseStatus::Failed);
    assert(aggregates == first + second + third);
    if report::occurs(records, transport) {
        let at = match transport {
            BenchmarkTransport::TcpSendfile => 0,
            BenchmarkTransport::TcpUserspace => first.len() as int,
            BenchmarkTransport::Urma => (first.len() + second.len()) as int,
        };
        assert(aggregates[at].transport == transport);
    }
}

/// A record of a case that did not succeed holds its case and what came of it, each under its own name.
pub proof fn records_are_told_by_their_lines(record: B4FileRunRecord, throughput: ThroughputText)
    requires
        record.status != B4CaseStatus::Success,
    ensures
        exists|fields: Seq<(Seq<char>, Seq<char>)>|
            {
                &&& record.json(throughput) == #[trigger] json::object(fields)
                &&& fields.len() == 6
                &&& fields[0] == ("record_type"@, report::quoted("raw"@))
                &&& fields[1] == (
                    "case_id"@,
                    report::quoted(report::escaped_all(record.case.case_id@)),
                )
                &&& fields[2] == ("repeat"@, text::decimal(record.case.repeat as nat))
                &&& fields[3] == ("transport"@, report::quoted(record.case.transport.name()))
                &&& fields[4] == ("status"@, report::quoted(record.status.name()))
                &&& fields[5].0 == "detail"@
                &&& record.detail matches Some(detail) ==> fields[5].1 == report::quoted(
                    report::escaped_all(detail@),
                )
            },
{
    let fields = seq![
        ("record_type"@, report::quoted("raw"@)),
        ("case_id"@, report::quoted(report::escaped_all(record.case.case_id@))),
        ("repeat"@, text::decimal(record.case.repeat as nat)),
        ("transport"@, report::quoted(record.case.transport.name())),
        ("status"@, report::quoted(record.status.name())),
        ("detail"@, report::quoted(report::escaped_all(report::detail_text(record.detail)))),
    ];
    assert(record.json(throughput) == json::object(fields));
}

/// The line of an aggregate holds each of its numbers under its own name, and calls it unstable exactly
/// where five samples or more vary.
pub proof fn aggregate_lines_name_their_values(aggregate: B4Aggregate, summary: ThroughputSummary)
    ensures
        ({
            let fields = aggregate.json_fields(summary);
            &&& fields.len() == 12
            &&& fields.contains(("record_type"@, report::quoted("aggregate"@)))
            &&& fields.contains(("transport"@, report::quoted(aggregate.transport.name())))
            &&& fields.contains(("sample_count"@, text::decimal(aggregate.sample_count as nat)))
            &&& fields.contains(
                ("integrity_failures"@, text::decimal(aggregate.integrity_failures as nat)),
            )
            &&& fields.contains(
                ("unsupported_cases"@, text::decimal(aggregate.unsupported_cases as nat)),
            )
            &&& fields.contains(("failed_cases"@, text::decimal(aggregate.failed_cases as nat)))
            &&& fields.contains(("throughput_mib_s_median"@, summary.mib_s_median@))
            &&& fields.contains(("throughput_mib_s_min"@, summary.mib_s_min@))
            &&& fields.contains(("throughput_mib_s_max"@, summary.mib_s_max@))
            &&& fields.contains(("throughput_gbit_s_median"@, summary.gbit_s_median@))
            &&& fields.contains(("cv_percent"@, summary.cv_percent@))
            &&& fields.contains(
                (
                    "unstable"@,
                    if aggregate.sample_count >= 5 && summary.varies {
                        "true"@
                    } else {
                        "false"@
                    },
                ),
            )
        }),
{
    let fields = aggregate.json_fields(summary);
    assert(fields[0].0 == "record_type"@ && fields[1].0 == "transport"@);
    assert(fields[2].0 == "sample_count"@ && fields[3].0 == "integrity_failures"@);
    assert(fields[4].0 == "unsupported_cases"@ && fields[5].0 == "failed_cases"@);
    assert(fields[6].0 == "throughput_mib_s_median"@ && fields[7].0 == "throughput_mib_s_min"@);
    assert(fields[8].0 == "throughput_mib_s_max"@ && fields[9].0 == "throughput_gbit_s_median"@);
    assert(fields[10].0 == "cv_percent"@ && fields[11].0 == "unstable"@);
}

/// The columns of a record in CSV hold what the head of the report names them.
pub proof fn record_columns_hold_their_values(record: B4FileRunRecord, throughput: ThroughputText)
    ensures
        ({
            let columns = record.csv_fields(throughput);
            &&& columns.len() == 16
            &&& columns[0] == "raw"@
            &&& columns[1] == record.status.name()
            &&& columns[2] == report::csv(record.case.case_id@)
            &&& columns[3] == text::decimal(record.case.repeat as nat)
            &&& columns[4] == record.case.transport.name()
            &&& columns[6] == text::decimal(record.case.chunk_size as nat)
            &&& columns[7] == text::decimal(record.case.window as nat)
            &&& columns[8] == record.case.timing_mode.name()
            &&& columns[9] == record.case.completion_policy.name()
            &&& record.detail matches Some(detail) ==> columns[15] == report::csv(detail@)
            &&& match record.result {
                Some(result) => {
                    let counters = result.transport_stats.map();
                    &&& columns[5] == text::decimal(result.bytes as nat)
                    &&& columns[10] == text::decimal(result.elapsed_ns as nat)
                    &&& counters.dom().contains("parent_elapsed_ns"@) ==> columns[11]
                        == text::decimal(counters["parent_elapsed_ns"@] as nat)
                    &&& !counters.dom().contains("parent_elapsed_ns"@) ==> columns[11].len() == 0
                    &&& columns[12] == throughput.mib_s@
                    &&& columns[13] == throughput.gbit_s@
                    &&& columns[14] == if result.integrity.length_ok && result.integrity.digest_ok {
                        "true"@
                    } else {
                        "false"@
                    }
                },
                None => {
                    &&& columns[5] == text::decimal(record.case.transfer_bytes as nat)
                    &&& columns[10].len() == 0
                    &&& columns[11].len() == 0
                    &&& columns[12].len() == 0
                    &&& columns[13].len() == 0
                    &&& columns[14] == "false"@
                },
            }
        }),
{
}

/// A field of CSV is read back: fields that stand before a comma or a line end are equal, with what
/// follows them, only where their texts are.
pub proof fn csv_fields_tell_texts_apart(
    left: Seq<char>,
    right: Seq<char>,
    after_left: Seq<char>,
    after_right: Seq<char>,
)
    requires
        after_left.len() > 0,
        after_right.len() > 0,
        after_left[0] == ',' || after_left[0] == '\n',
        after_right[0] == ',' || after_right[0] == '\n',
        report::csv(left) + after_left == report::csv(right) + after_right,
    ensures
        left == right,
        after_left == after_right,
{
    reveal_strlit("\"");
    let whole = report::csv(left) + after_left;
    let other = report::csv(right) + after_right;
    if report::needs_quotes(left) && report::needs_quotes(right) {
        assert(whole.skip(1) =~= report::doubled(left) + (seq!['"'] + after_left));
        assert(other.skip(1) =~= report::doubled(right) + (seq!['"'] + after_right));
        lemma_doubled(left, right, after_left, after_right);
    } else if report::needs_quotes(left) {
        assert(whole[0] == '"');
        if right.len() > 0 {
            assert(other[0] == right[0]);
        } else {
            assert(other[0] == after_right[0]);
        }
    } else if report::needs_quotes(right) {
        assert(other[0] == '"');
        if left.len() > 0 {
            assert(whole[0] == left[0]);
        } else {
            assert(whole[0] == after_left[0]);
        }
    } else {
        if left.len() < right.len() {
            assert(whole[left.len() as int] == after_left[0]);
            assert(other[left.len() as int] == right[left.len() as int]);
        } else if right.len() < left.len() {
            assert(other[right.len() as int] == after_right[0]);
            assert(whole[right.len() as int] == left[right.len() as int]);
        }
        assert(left =~= whole.take(left.len() as int));
        assert(right =~= other.take(right.len() as int));
        assert(after_left =~= whole.skip(left.len() as int));
        assert(after_right =~= other.skip(right.len() as int));
    }
}

proof fn lemma_doubled_front(text: Seq<char>)
    requires
        text.len() > 0,
    ensures
        report::doubled(text) == (if text[0] == '"' {
            seq!['"', '"']
        } else {
            seq![text[0]]
        }) + report::doubled(text.drop_first()),
    decreases text.len(),
{
    reveal_strlit("\"\"");
    let first = if text[0] == '"' {
        seq!['"', '"']
    } else {
        seq![text[0]]
    };
    if text.len() == 1 {
        assert(report::doubled(text.drop_last()) =~= Seq::<char>::empty());
        assert(report::doubled(text.drop_first()) =~= Seq::<char>::empty());
        assert(report::doubled(text) =~= first + report::doubled(text.drop_first()));
    } else {
        lemma_doubled_front(text.drop_last());
        assert(text.drop_last().drop_first() =~= text.drop_first().drop_last());
        assert(text.drop_first().last() == text.last());
        assert(report::doubled(text) =~= first + report::doubled(text.drop_first()));
    }
}

proof fn lemma_doubled(
    left: Seq<char>,
    right: Seq<char>,
    after_left: Seq<char>,
    after_right: Seq<char>,
)
    requires
        after_left.len() > 0,
        after_right.len() > 0,
        after_left[0] != '"',
        after_right[0] != '"',
        report::doubled(left) + (seq!['"'] + after_left) == report::doubled(right) + (seq!['"']
            + after_right),
    ensures
        left == right,
        after_left == after_right,
    decreases left.len(),
{
    let whole = report::doubled(left) + (seq!['"'] + after_left);
    let other = report::doubled(right) + (seq!['"'] + after_right);
    if left.len() > 0 {
        lemma_doubled_front(left);
        assert(whole[0] == left[0]);
        if left[0] == '"' {
            assert(whole[1] == '"');
        }
    } else {
        assert(whole =~= seq!['"'] + after_left);
    }
    if right.len() > 0 {
        lemma_doubled_front(right);
        assert(other[0] == right[0]);
        if right[0] == '"' {
            assert(other[1] == '"');
        }
    } else {
        assert(other =~= seq!['"'] + after_right);
    }
    if left.len() == 0 {
        assert(right.len() == 0);
        assert(left =~= right);
        assert(whole.skip(1) =~= after_left);
        assert(other.skip(1) =~= after_right);
    } else {
        assert(right.len() > 0);
        assert(left[0] == right[0]);
        let width: int = if left[0] == '"' {
            2
        } else {
            1
        };
        assert(whole.skip(width) =~= report::doubled(left.drop_first()) + (seq!['"'] + after_left));
        assert(other.skip(width) =~= report::doubled(right.drop_first()) + (seq!['"']
            + after_right));
        lemma_doubled(left.drop_first(), right.drop_first(), after_left, after_right);
        assert(left =~= seq![left[0]] + left.drop_first());
        assert(right =~= seq![right[0]] + right.drop_first());
    }
}

/// The report lists every record's line in order: the lines of some records and one more are the lines
/// of those records and that one's, with a line end.
pub proof fn csv_lists_every_record(
    records: Seq<B4FileRunRecord>,
    throughputs: Seq<ThroughputText>,
    record: B4FileRunRecord,
    throughput: ThroughputText,
)
    requires
        records.len() == throughputs.len(),
    ensures
        report::records_csv(records.push(record), throughputs.push(throughput))
            == report::records_csv(records, throughputs) + text::joined(
            record.csv_fields(throughput),
            ","@,
        ) + "\n"@,
{
    assert(records.push(record).drop_last() =~= records);
    lemma_records_csv(records, throughputs, throughputs.push(throughput));
}

proof fn lemma_records_csv(
    records: Seq<B4FileRunRecord>,
    throughputs: Seq<ThroughputText>,
    more: Seq<ThroughputText>,
)
    requires
        records.len() <= throughputs.len() <= more.len(),
        forall|i: int| 0 <= i < throughputs.len() ==> #[trigger] more[i] == throughputs[i],
    ensures
        report::records_csv(records, more) == report::records_csv(records, throughputs),
    decreases records.len(),
{
    if records.len() > 0 {
        lemma_records_csv(records.drop_last(), throughputs, more);
        assert(more[records.len() - 1] == throughputs[records.len() - 1]);
    }
}

/// A text in the line of a record is read back: two texts between quotes are equal, with what follows
/// them, only where the texts are.
pub proof fn record_texts_are_told_apart(
    left: Seq<char>,
    right: Seq<char>,
    after_left: Seq<char>,
    after_right: Seq<char>,
)
    requires
        report::quoted(report::escaped_all(left)) + after_left == report::quoted(
            report::escaped_all(right),
        ) + after_right,
    ensures
        left == right,
        after_left == after_right,
{
    reveal_strlit("\"");
    let whole = report::quoted(report::escaped_all(left)) + after_left;
    let other = report::quoted(report::escaped_all(right)) + after_right;
    assert(whole.skip(1) =~= report::escaped_all(left) + seq!['"'] + after_left);
    assert(other.skip(1) =~= report::escaped_all(right) + seq!['"'] + after_right);
    lemma_record_text(left, right, after_left, after_right);
}

/// A character that is no quote, no backslash and no control character stands for itself, and no text
/// in a record holds a control character.
pub proof fn record_texts_stay_on_one_line(text: Seq<char>, ch: char)
    ensures
        ch != '"' && ch != '\\' && !json::is_control(ch) ==> report::escaped(ch) == seq![ch],
        json::reading::is_one_line(report::escaped_all(text)),
    decreases text.len(),
{
    if text.len() > 0 {
        record_texts_stay_on_one_line(text.drop_last(), ch);
        lemma_escaped_line(text.last());
        let earlier = report::escaped_all(text.drop_last());
        let last = report::escaped(text.last());
        assert forall|i: int| 0 <= i < (earlier + last).len() implies !json::is_control(
            #[trigger] (earlier + last)[i],
        ) by {
            if i < earlier.len() {
                assert((earlier + last)[i] == earlier[i]);
            } else {
                assert((earlier + last)[i] == last[i - earlier.len()]);
            }
        }
    }
}

proof fn lemma_escaped_line(ch: char)
    ensures
        json::reading::is_one_line(report::escaped(ch)),
{
    reveal_strlit("\\\"");
    reveal_strlit("\\\\");
    reveal_strlit("\\n");
    reveal_strlit("\\r");
    reveal_strlit("\\t");
    reveal_strlit("\\u");
    let code = text::hex(ch as u32 as nat, 4);
    lemma_hex_line(ch as u32 as nat, 4);
    let escaped = report::escaped(ch);
    assert forall|i: int| 0 <= i < escaped.len() implies !json::is_control(
        #[trigger] escaped[i],
    ) by {
        if escaped == "\\u"@ + code && i >= 2 {
            assert(escaped[i] == code[i - 2]);
        }
    }
}

proof fn lemma_hex_line(n: nat, width: nat)
    ensures
        json::reading::is_one_line(text::hex(n, width)),
    decreases width,
{
    if width > 0 {
        lemma_hex_line(n / 16, (width - 1) as nat);
        let earlier = text::hex(n / 16, (width - 1) as nat);
        let all = text::hex(n, width);
        assert forall|i: int| 0 <= i < all.len() implies !json::is_control(#[trigger] all[i]) by {
            if i < earlier.len() {
                assert(all[i] == earlier[i]);
            }
        }
    }
}

proof fn lemma_record_text(
    left: Seq<char>,
    right: Seq<char>,
    after_left: Seq<char>,
    after_right: Seq<char>,
)
    requires
        report::escaped_all(left) + seq!['"'] + after_left == report::escaped_all(right)
            + seq!['"'] + after_right,
    ensures
        left == right,
        after_left == after_right,
    decreases left.len(),
{
    let rest_left = report::escaped_all(left) + seq!['"'] + after_left;
    let rest_right = report::escaped_all(right) + seq!['"'] + after_right;
    if left.len() > 0 {
        lemma_record_front(left);
        lemma_record_start(left[0]);
        assert(rest_left[0] == report::escaped(left[0])[0]);
    } else {
        assert(rest_left[0] == '"');
    }
    if right.len() > 0 {
        lemma_record_front(right);
        lemma_record_start(right[0]);
        assert(rest_right[0] == report::escaped(right[0])[0]);
    } else {
        assert(rest_right[0] == '"');
    }
    if left.len() == 0 {
        assert(left =~= right);
        assert(rest_left.skip(1) =~= after_left);
        assert(rest_right.skip(1) =~= after_right);
    } else {
        let more_left = report::escaped_all(left.drop_first()) + seq!['"'] + after_left;
        let more_right = report::escaped_all(right.drop_first()) + seq!['"'] + after_right;
        assert(rest_left =~= report::escaped(left[0]) + more_left);
        assert(rest_right =~= report::escaped(right[0]) + more_right);
        lemma_record_prefix(left[0], right[0], more_left, more_right);
        lemma_record_text(left.drop_first(), right.drop_first(), after_left, after_right);
        assert(left =~= seq![left[0]] + left.drop_first());
        assert(right =~= seq![right[0]] + right.drop_first());
    }
}

proof fn lemma_record_front(text: Seq<char>)
    requires
        text.len() > 0,
    ensures
        report::escaped_all(text) == report::escaped(text[0]) + report::escaped_all(
            text.drop_first(),
        ),
    decreases text.len(),
{
    let rest = text.drop_first();
    if text.len() == 1 {
        assert(report::escaped_all(text.drop_last()) =~= Seq::<char>::empty());
        assert(report::escaped_all(rest) =~= Seq::<char>::empty());
    } else {
        lemma_record_front(text.drop_last());
        assert(text.drop_last().drop_first() =~= rest.drop_last());
        assert(rest.last() == text.last());
    }
    assert(report::escaped_all(text) =~= report::escaped(text[0]) + report::escaped_all(rest));
}

proof fn lemma_record_start(ch: char)
    ensures
        report::escaped(ch).len() > 0,
        report::escaped(ch)[0] != '"',
        report::escaped(ch)[0] == '\\' || report::escaped(ch) == seq![ch],
{
    reveal_strlit("\\\"");
    reveal_strlit("\\\\");
    reveal_strlit("\\n");
    reveal_strlit("\\r");
    reveal_strlit("\\t");
    reveal_strlit("\\u");
}

proof fn lemma_record_prefix(
    left: char,
    right: char,
    after_left: Seq<char>,
    after_right: Seq<char>,
)
    requires
        report::escaped(left) + after_left == report::escaped(right) + after_right,
    ensures
        left == right,
        after_left == after_right,
{
    reveal_strlit("\\\"");
    reveal_strlit("\\\\");
    reveal_strlit("\\n");
    reveal_strlit("\\r");
    reveal_strlit("\\t");
    reveal_strlit("\\u");
    let a = report::escaped(left);
    let b = report::escaped(right);
    let whole = a + after_left;
    let code_left = text::hex(left as u32 as nat, 4);
    let code_right = text::hex(right as u32 as nat, 4);
    json::reading::lemma_hex_length(left as u32 as nat, 4);
    json::reading::lemma_hex_length(right as u32 as nat, 4);
    lemma_record_start(left);
    lemma_record_start(right);
    assert(whole[0] == a[0] && whole[0] == b[0]);
    if a.len() > 1 {
        assert(whole[1] == a[1]);
    }
    if b.len() > 1 {
        assert(whole[1] == b[1]);
    }
    if a.len() > 1 && a[1] == 'u' {
        assert(a == "\\u"@ + code_left);
        assert(b == "\\u"@ + code_right);
        assert(code_left =~= whole.subrange(2, 6));
        assert(code_right =~= (b + after_right).subrange(2, 6));
        json::reading::lemma_code(left, right);
    }
    assert(left == right);
    assert(after_left =~= whole.skip(a.len() as int));
    assert(after_right =~= (b + after_right).skip(b.len() as int));
}

/// A case that gave a result has succeeded exactly where the result is sound, and failed its integrity
/// exactly where the payload is not intact; one that gave none is told with its reason. What went wrong
/// is told exactly where something did.
pub proof fn records_tell_what_came_of_their_case(
    record: B4FileRunRecord,
    case: CaseView,
    outcome: B4ExecutionOutcome,
)
    requires
        is_record_of(record, case, outcome),
    ensures
        record.case@ == case,
        record.status == B4CaseStatus::Success <==> (outcome matches B4ExecutionOutcome::Result(
            result,
        ) && result_fault(case, result) is None),
        record.detail is None <==> record.status == B4CaseStatus::Success,
        record.result is Some <==> outcome is Result,
        outcome matches B4ExecutionOutcome::Result(result) ==> {
            &&& record.result == Some(result)
            &&& record.status == B4CaseStatus::IntegrityFailure <==> !(result.integrity.length_ok
                && result.integrity.digest_ok)
            &&& detail_view(record.detail) == result_fault(case, result)
        },
        outcome matches B4ExecutionOutcome::Unsupported(detail) ==> record.status
            == B4CaseStatus::Unsupported && detail_view(record.detail) == Some(detail@),
        outcome matches B4ExecutionOutcome::Failed(detail) ==> record.status == B4CaseStatus::Failed
            && detail_view(record.detail) == Some(detail@),
{
}

} // verus!
