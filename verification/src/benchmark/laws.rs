//! What the cases and the results of a benchmark keep to.

use vstd::prelude::*;

use super::payload;
use super::stats;
use super::{
    cpu_json, holds_control, BenchmarkCase, BenchmarkResult, BenchmarkScenario, BenchmarkTransport,
    CaseView, CpuUsage, FileCompletionPolicy, IntegrityResult, TimingMode, TimingSample,
};
use crate::json;
use crate::json::telling;
use crate::text;

verus! {

/// A name is read back as the value that it names, and different values have different names.
pub proof fn names_are_read_back(
    scenario: BenchmarkScenario,
    transport: BenchmarkTransport,
    timing_mode: TimingMode,
    completion_policy: FileCompletionPolicy,
)
    ensures
        BenchmarkScenario::parse(scenario.name()) == Ok::<BenchmarkScenario, crate::error::ErrorView>(
            scenario,
        ),
        BenchmarkTransport::parse(transport.name()) == Ok::<
            BenchmarkTransport,
            crate::error::ErrorView,
        >(transport),
        TimingMode::parse(timing_mode.name()) == Ok::<TimingMode, crate::error::ErrorView>(
            timing_mode,
        ),
        FileCompletionPolicy::parse(completion_policy.name()) == Ok::<
            FileCompletionPolicy,
            crate::error::ErrorView,
        >(completion_policy),
{
    lemma_names();
}

/// A text is read as a transport, a timing mode or a completion policy only where it is the name, and
/// as a scenario only where it is the name or says twice where the bytes are.
pub proof fn only_names_are_read(value: Seq<char>)
    ensures
        BenchmarkScenario::parse(value) matches Ok(scenario) ==> value == scenario.name() || value
            == scenario.name() + "-to-"@ + scenario.name(),
        BenchmarkTransport::parse(value) matches Ok(transport) ==> value == transport.name(),
        TimingMode::parse(value) matches Ok(mode) ==> value == mode.name(),
        FileCompletionPolicy::parse(value) matches Ok(policy) ==> value == policy.name(),
        forall|scenario: BenchmarkScenario|
            value == #[trigger] scenario.name() + "-to-"@ + scenario.name()
                ==> BenchmarkScenario::parse(value) == Ok::<
                BenchmarkScenario,
                crate::error::ErrorView,
            >(scenario),
{
    lemma_names();
    reveal_strlit("-to-");
    reveal_strlit("memory");
    reveal_strlit("file");
    reveal_strlit("memory-to-memory");
    reveal_strlit("file-to-file");
    assert("memory-to-memory"@ =~= "memory"@ + "-to-"@ + "memory"@);
    assert("file-to-file"@ =~= "file"@ + "-to-"@ + "file"@);
    assert("memory-to-memory"@.len() != "file-to-file"@.len());
    assert("memory"@.len() != "file-to-file"@.len());
    assert("memory-to-memory"@.len() != "file"@.len());
}

proof fn lemma_names()
    ensures
        "memory"@.len() == 6,
        "file"@.len() == 4,
        "tcp-userspace"@.len() == 13,
        "tcp-sendfile"@.len() == 12,
        "urma"@.len() == 4,
        "steady-state"@.len() == 12,
        "setup-included"@.len() == 14,
        "buffered"@.len() == 8,
        "durable"@.len() == 7,
        "memory-to-memory"@.len() == 16,
{
    reveal_strlit("memory");
    reveal_strlit("file");
    reveal_strlit("tcp-userspace");
    reveal_strlit("tcp-sendfile");
    reveal_strlit("urma");
    reveal_strlit("steady-state");
    reveal_strlit("setup-included");
    reveal_strlit("buffered");
    reveal_strlit("durable");
    reveal_strlit("memory-to-memory");
}

/// A case can be run exactly where its name has one to 128 bytes and no control character, its repeat,
/// its window and its chunk size are positive, its buffers fit in memory, and what only files have is
/// asked for only of files.
pub proof fn cases_are_valid_exactly_when(case: CaseView)
    ensures
        case.error() is None <==> {
            &&& 1 <= text::utf8(case.case_id).len() <= 128
            &&& forall|i: int|
                0 <= i < case.case_id.len() ==> !json::is_control(#[trigger] case.case_id[i])
            &&& case.repeat >= 1
            &&& case.window >= 1
            &&& 1 <= case.chunk_size <= isize::MAX
            &&& case.scenario == BenchmarkScenario::Memory ==> {
                &&& case.transport != BenchmarkTransport::TcpSendfile
                &&& case.completion_policy == FileCompletionPolicy::Buffered
                &&& case.transfer_bytes <= isize::MAX
            }
        },
{
    if holds_control(case.case_id) {
        let i = choose|i: int|
            0 <= i < case.case_id.len() && json::is_control(#[trigger] case.case_id[i]);
        assert(json::is_control(case.case_id[i]));
    }
}

/// A sample becomes a result exactly where its case is valid, it was timed as the case says, it was
/// judged against the length of the case, and its nanoseconds can be counted.
pub proof fn samples_are_taken_exactly_when(
    case: BenchmarkCase,
    sample: TimingSample,
    integrity: IntegrityResult,
)
    ensures
        BenchmarkResult::sample_error(case, sample, integrity) is None <==> {
            &&& case.error() is None
            &&& sample.mode == case.timing_mode
            &&& integrity.expected_bytes == case.transfer_bytes
            &&& sample.elapsed <= u64::MAX
        },
{
}

/// A transfer is judged intact exactly where both the length and the checksum are the expected ones,
/// and the judgement keeps all four.
pub proof fn transfers_are_intact_exactly_when(
    expected_bytes: u64,
    actual_bytes: u64,
    expected_crc32: u32,
    actual_crc32: u32,
)
    ensures
        ({
            let judged = IntegrityResult::judged(
                expected_bytes,
                actual_bytes,
                expected_crc32,
                actual_crc32,
            );
            &&& judged.length_ok && judged.digest_ok <==> expected_bytes == actual_bytes
                && expected_crc32 == actual_crc32
            &&& judged.length_ok <==> expected_bytes == actual_bytes
            &&& judged.expected_bytes == expected_bytes
            &&& judged.actual_bytes == actual_bytes
            &&& judged.expected_crc32 == expected_crc32
            &&& judged.actual_crc32 == actual_crc32
        }),
{
}

/// The line of a case holds each of its values under its own name.
pub proof fn case_lines_name_their_values(case: CaseView)
    ensures
        ({
            let fields = case.json_fields();
            &&& fields.len() == 10
            &&& fields.contains(("case_id"@, json::string(case.case_id)))
            &&& fields.contains(("repeat"@, text::decimal(case.repeat as nat)))
            &&& fields.contains(("scenario"@, json::string(case.scenario.name())))
            &&& fields.contains(("transport"@, json::string(case.transport.name())))
            &&& fields.contains(("bytes"@, text::decimal(case.transfer_bytes as nat)))
            &&& fields.contains(("chunk_size"@, text::decimal(case.chunk_size as nat)))
            &&& fields.contains(("window"@, text::decimal(case.window as nat)))
            &&& fields.contains(("timing_mode"@, json::string(case.timing_mode.name())))
            &&& fields.contains(("completion_policy"@, json::string(case.completion_policy.name())))
            &&& fields.contains(("data_seed"@, text::decimal(case.data_seed as nat)))
        }),
{
    let fields = case.json_fields();
    assert(fields[0].0 == "case_id"@ && fields[1].0 == "repeat"@ && fields[2].0 == "scenario"@);
    assert(fields[3].0 == "transport"@ && fields[4].0 == "bytes"@ && fields[5].0 == "chunk_size"@);
    assert(fields[6].0 == "window"@ && fields[7].0 == "timing_mode"@);
    assert(fields[8].0 == "completion_policy"@ && fields[9].0 == "data_seed"@);
}

/// The line of a result holds each of its values under its own name: the member `bytes` is the decimal
/// of the bytes that were transferred, and so on.
pub proof fn result_lines_name_their_values(
    result: BenchmarkResult,
    mib_s: Seq<char>,
    gbit_s: Seq<char>,
)
    ensures
        ({
            let fields = result.json_fields(mib_s, gbit_s);
            &&& fields.len() == 17
            &&& fields.contains(("case_id"@, json::string(result.case_id@)))
            &&& fields.contains(("repeat"@, text::decimal(result.repeat as nat)))
            &&& fields.contains(("transport"@, json::string(result.transport.name())))
            &&& fields.contains(("scenario"@, json::string(result.scenario.name())))
            &&& fields.contains(("bytes"@, text::decimal(result.bytes as nat)))
            &&& fields.contains(("chunk_size"@, text::decimal(result.chunk_size as nat)))
            &&& fields.contains(("window"@, text::decimal(result.window as nat)))
            &&& fields.contains(("elapsed_ns"@, text::decimal(result.elapsed_ns as nat)))
            &&& fields.contains(("elapsed_us"@, text::decimal(result.elapsed_us as nat)))
            &&& fields.contains(("throughput_mib_s"@, mib_s))
            &&& fields.contains(("throughput_gbit_s"@, gbit_s))
            &&& fields.contains(("timing_mode"@, json::string(result.timing_mode.name())))
            &&& fields.contains(
                ("completion_policy"@, json::string(result.completion_policy.name())),
            )
            &&& fields.contains(("integrity"@, json::object(result.integrity.json_fields())))
            &&& fields.contains(("parent_cpu"@, cpu_json(result.parent_cpu)))
            &&& fields.contains(("child_cpu"@, cpu_json(result.child_cpu)))
            &&& fields.contains(
                ("transport_stats"@, json::object(stats::stats_fields(result.transport_stats@))),
            )
        }),
{
    let fields = result.json_fields(mib_s, gbit_s);
    assert(fields[0].0 == "case_id"@ && fields[1].0 == "repeat"@ && fields[2].0 == "transport"@);
    assert(fields[3].0 == "scenario"@ && fields[4].0 == "bytes"@ && fields[5].0 == "chunk_size"@);
    assert(fields[6].0 == "window"@ && fields[7].0 == "elapsed_ns"@ && fields[8].0 == "elapsed_us"@);
    assert(fields[9].0 == "throughput_mib_s"@ && fields[10].0 == "throughput_gbit_s"@);
    assert(fields[11].0 == "timing_mode"@ && fields[12].0 == "completion_policy"@);
    assert(fields[13].0 == "integrity"@ && fields[14].0 == "parent_cpu"@);
    assert(fields[15].0 == "child_cpu"@ && fields[16].0 == "transport_stats"@);
}

/// The judgement's members hold what was expected, what came and what follows of it, each under its
/// own name.
pub proof fn integrity_members_name_their_values(integrity: IntegrityResult)
    ensures
        ({
            let fields = integrity.json_fields();
            &&& fields.len() == 7
            &&& fields.contains(("expected_bytes"@, text::decimal(integrity.expected_bytes as nat)))
            &&& fields.contains(("actual_bytes"@, text::decimal(integrity.actual_bytes as nat)))
            &&& fields.contains(("expected_crc32"@, text::decimal(integrity.expected_crc32 as nat)))
            &&& fields.contains(("actual_crc32"@, text::decimal(integrity.actual_crc32 as nat)))
            &&& fields.contains(("length_ok"@, if integrity.length_ok { "true"@ } else { "false"@ }))
            &&& fields.contains(("digest_ok"@, if integrity.digest_ok { "true"@ } else { "false"@ }))
            &&& fields.contains(
                (
                    "ok"@,
                    if integrity.length_ok && integrity.digest_ok {
                        "true"@
                    } else {
                        "false"@
                    },
                ),
            )
        }),
{
    let fields = integrity.json_fields();
    assert(fields[0].0 == "expected_bytes"@ && fields[1].0 == "actual_bytes"@);
    assert(fields[2].0 == "expected_crc32"@ && fields[3].0 == "actual_crc32"@);
    assert(fields[4].0 == "length_ok"@ && fields[5].0 == "digest_ok"@ && fields[6].0 == "ok"@);
}

/// The line of a result tells what was run and measured: results that differ in the case, in the bytes
/// transferred or in the time have different lines, however their throughput is printed.
#[verifier::spinoff_prover]
pub proof fn result_lines_tell_measurements_apart(
    left: BenchmarkResult,
    right: BenchmarkResult,
    left_mib_s: Seq<char>,
    left_gbit_s: Seq<char>,
    right_mib_s: Seq<char>,
    right_gbit_s: Seq<char>,
)
    requires
        json::object(left.json_fields(left_mib_s, left_gbit_s)) == json::object(
            right.json_fields(right_mib_s, right_gbit_s),
        ),
    ensures
        left.case_id@ == right.case_id@,
        left.repeat == right.repeat,
        left.transport == right.transport,
        left.scenario == right.scenario,
        left.bytes == right.bytes,
        left.chunk_size == right.chunk_size,
        left.window == right.window,
        left.elapsed_ns == right.elapsed_ns,
        left.elapsed_us == right.elapsed_us,
{
    let a = left.json_fields(left_mib_s, left_gbit_s);
    let b = right.json_fields(right_mib_s, right_gbit_s);
    lemma_leading_scalars(left, left_mib_s, left_gbit_s);
    lemma_leading_scalars(right, right_mib_s, right_gbit_s);
    assert forall|i: int| 0 <= i < 9 implies telling::comparable((#[trigger] a[i]).1, b[i].1) by {
        assert(json::reading::is_scalar(a[i].1));
        assert(json::reading::is_scalar(b[i].1));
    }
    telling::objects_tell_leading_values_apart(a, b, 9);
    lemma_leading_values(left, right, left_mib_s, left_gbit_s, right_mib_s, right_gbit_s);
}

proof fn lemma_leading_scalars(result: BenchmarkResult, mib_s: Seq<char>, gbit_s: Seq<char>)
    ensures
        forall|i: int|
            0 <= i < 9 ==> json::reading::is_scalar(
                (#[trigger] result.json_fields(mib_s, gbit_s)[i]).1,
            ),
{
}

#[verifier::spinoff_prover]
proof fn lemma_leading_values(
    left: BenchmarkResult,
    right: BenchmarkResult,
    left_mib_s: Seq<char>,
    left_gbit_s: Seq<char>,
    right_mib_s: Seq<char>,
    right_gbit_s: Seq<char>,
)
    requires
        forall|i: int|
            0 <= i < 9 ==> (#[trigger] left.json_fields(left_mib_s, left_gbit_s)[i]).1
                == right.json_fields(right_mib_s, right_gbit_s)[i].1,
    ensures
        left.case_id@ == right.case_id@,
        left.repeat == right.repeat,
        left.transport == right.transport,
        left.scenario == right.scenario,
        left.bytes == right.bytes,
        left.chunk_size == right.chunk_size,
        left.window == right.window,
        left.elapsed_ns == right.elapsed_ns,
        left.elapsed_us == right.elapsed_us,
{
    let a = left.json_fields(left_mib_s, left_gbit_s);
    let b = right.json_fields(right_mib_s, right_gbit_s);
    lemma_names();
    assert(a[0].1 == b[0].1 && a[1].1 == b[1].1 && a[2].1 == b[2].1 && a[3].1 == b[3].1);
    assert(a[4].1 == b[4].1 && a[5].1 == b[5].1 && a[6].1 == b[6].1 && a[7].1 == b[7].1);
    assert(a[8].1 == b[8].1);
    json::reading::lemma_string_injective(left.case_id@, right.case_id@);
    json::reading::lemma_decimal_injective(left.repeat as nat, right.repeat as nat);
    json::reading::lemma_string_injective(left.transport.name(), right.transport.name());
    json::reading::lemma_string_injective(left.scenario.name(), right.scenario.name());
    json::reading::lemma_decimal_injective(left.bytes as nat, right.bytes as nat);
    json::reading::lemma_decimal_injective(left.chunk_size as nat, right.chunk_size as nat);
    json::reading::lemma_decimal_injective(left.window as nat, right.window as nat);
    json::reading::lemma_decimal_injective(left.elapsed_ns as nat, right.elapsed_ns as nat);
    json::reading::lemma_decimal_injective(left.elapsed_us as nat, right.elapsed_us as nat);
}

/// With the throughput printed alike, the line of a result tells all of it: results that differ in
/// anything have different lines.
#[verifier::spinoff_prover]
pub proof fn result_lines_tell_results_apart(
    left: BenchmarkResult,
    right: BenchmarkResult,
    mib_s: Seq<char>,
    gbit_s: Seq<char>,
)
    requires
        json::object(left.json_fields(mib_s, gbit_s)) == json::object(
            right.json_fields(mib_s, gbit_s),
        ),
    ensures
        left.case_id@ == right.case_id@,
        left.bytes == right.bytes,
        left.timing_mode == right.timing_mode,
        left.completion_policy == right.completion_policy,
        left.integrity.expected_bytes == right.integrity.expected_bytes,
        left.integrity.actual_bytes == right.integrity.actual_bytes,
        left.integrity.expected_crc32 == right.integrity.expected_crc32,
        left.integrity.actual_crc32 == right.integrity.actual_crc32,
        left.integrity.length_ok == right.integrity.length_ok,
        left.integrity.digest_ok == right.integrity.digest_ok,
        left.parent_cpu == right.parent_cpu,
        left.child_cpu == right.child_cpu,
        left.transport_stats@ == right.transport_stats@,
{
    lemma_same_fields(left, right, mib_s, gbit_s);
    lemma_leading_values(left, right, mib_s, gbit_s, mib_s, gbit_s);
    lemma_trailing_values(left, right, mib_s, gbit_s);
}

#[verifier::spinoff_prover]
#[verifier::rlimit(60)]
proof fn lemma_same_fields(
    left: BenchmarkResult,
    right: BenchmarkResult,
    mib_s: Seq<char>,
    gbit_s: Seq<char>,
)
    requires
        json::object(left.json_fields(mib_s, gbit_s)) == json::object(
            right.json_fields(mib_s, gbit_s),
        ),
    ensures
        left.json_fields(mib_s, gbit_s) == right.json_fields(mib_s, gbit_s),
{
    let a = left.json_fields(mib_s, gbit_s);
    let b = right.json_fields(mib_s, gbit_s);
    lemma_later_values(left, mib_s, gbit_s);
    lemma_later_values(right, mib_s, gbit_s);
    lemma_leading_scalars(left, mib_s, gbit_s);
    lemma_leading_scalars(right, mib_s, gbit_s);
    assert forall|i: int| 0 <= i < 17 implies telling::comparable((#[trigger] a[i]).1, b[i].1) by {
        if i < 9 {
            assert(json::reading::is_scalar(a[i].1));
            assert(json::reading::is_scalar(b[i].1));
        } else if i > 10 {
            assert(telling::is_value(a[i].1));
            assert(telling::is_value(b[i].1));
        }
    }
    telling::objects_tell_all_values_apart(a, b);
}

#[verifier::spinoff_prover]
#[verifier::rlimit(60)]
proof fn lemma_trailing_values(
    left: BenchmarkResult,
    right: BenchmarkResult,
    mib_s: Seq<char>,
    gbit_s: Seq<char>,
)
    requires
        left.json_fields(mib_s, gbit_s) == right.json_fields(mib_s, gbit_s),
    ensures
        left.timing_mode == right.timing_mode,
        left.completion_policy == right.completion_policy,
        left.integrity == right.integrity,
        left.parent_cpu == right.parent_cpu,
        left.child_cpu == right.child_cpu,
        left.transport_stats@ == right.transport_stats@,
{
    let a = left.json_fields(mib_s, gbit_s);
    let b = right.json_fields(mib_s, gbit_s);
    lemma_names();
    assert(a[11].1 == b[11].1 && a[12].1 == b[12].1 && a[13].1 == b[13].1);
    assert(a[14].1 == b[14].1 && a[15].1 == b[15].1 && a[16].1 == b[16].1);
    json::reading::lemma_string_injective(left.timing_mode.name(), right.timing_mode.name());
    json::reading::lemma_string_injective(
        left.completion_policy.name(),
        right.completion_policy.name(),
    );
    lemma_integrity_apart(left.integrity, right.integrity);
    lemma_cpu_apart(left.parent_cpu, right.parent_cpu);
    lemma_cpu_apart(left.child_cpu, right.child_cpu);
    stats_lines_tell_counters_apart(left.transport_stats@, right.transport_stats@);
}

proof fn lemma_later_values(result: BenchmarkResult, mib_s: Seq<char>, gbit_s: Seq<char>)
    ensures
        forall|i: int|
            11 <= i < 17 ==> telling::is_value((#[trigger] result.json_fields(mib_s, gbit_s)[i]).1),
{
    lemma_integrity_flat(result.integrity);
    lemma_cpu_value(result.parent_cpu);
    lemma_cpu_value(result.child_cpu);
    lemma_stats_flat(result.transport_stats@);
    let fields = result.json_fields(mib_s, gbit_s);
    assert(json::reading::is_scalar(fields[11].1));
    assert(json::reading::is_scalar(fields[12].1));
    assert(fields[13].1 == json::object(result.integrity.json_fields()));
    assert(fields[16].1 == json::object(stats::stats_fields(result.transport_stats@)));
}

proof fn lemma_integrity_flat(integrity: IntegrityResult)
    ensures
        telling::all_flat(integrity.json_fields()),
{
}

proof fn lemma_integrity_apart(left: IntegrityResult, right: IntegrityResult)
    requires
        json::object(left.json_fields()) == json::object(right.json_fields()),
    ensures
        left == right,
{
    lemma_integrity_flat(left);
    lemma_integrity_flat(right);
    let a = left.json_fields();
    let b = right.json_fields();
    telling::flat_objects_tell_members_apart(a, b);
    assert(a[0].1 == b[0].1 && a[1].1 == b[1].1 && a[2].1 == b[2].1 && a[3].1 == b[3].1);
    assert(a[4].1 == b[4].1 && a[5].1 == b[5].1);
    json::reading::lemma_decimal_injective(left.expected_bytes as nat, right.expected_bytes as nat);
    json::reading::lemma_decimal_injective(left.actual_bytes as nat, right.actual_bytes as nat);
    json::reading::lemma_decimal_injective(left.expected_crc32 as nat, right.expected_crc32 as nat);
    json::reading::lemma_decimal_injective(left.actual_crc32 as nat, right.actual_crc32 as nat);
    reveal_strlit("true");
    reveal_strlit("false");
    assert("true"@.len() != "false"@.len());
}

spec fn cpu_fields(cpu: CpuUsage) -> Seq<(Seq<char>, Seq<char>)> {
    seq![
        ("user_us"@, text::decimal(cpu.user_us as nat)),
        ("system_us"@, text::decimal(cpu.system_us as nat)),
    ]
}

proof fn lemma_cpu_value(cpu: Option<CpuUsage>)
    ensures
        telling::is_value(cpu_json(cpu)),
        cpu matches Some(cpu) ==> telling::all_flat(cpu_fields(cpu)),
{
    if cpu is Some {
        assert(telling::all_flat(cpu_fields(cpu->0)));
        assert(cpu_json(cpu) == json::object(cpu_fields(cpu->0)));
    }
}

proof fn lemma_cpu_apart(left: Option<CpuUsage>, right: Option<CpuUsage>)
    requires
        cpu_json(left) == cpu_json(right),
    ensures
        left == right,
{
    reveal_strlit("null");
    reveal_strlit("{");
    lemma_cpu_value(left);
    lemma_cpu_value(right);
    if left is Some {
        assert(cpu_json(left)[0] == '{');
    }
    if right is Some {
        assert(cpu_json(right)[0] == '{');
    }
    if left is Some {
        let a = cpu_fields(left->0);
        let b = cpu_fields(right->0);
        telling::flat_objects_tell_members_apart(a, b);
        assert(a[0].1 == b[0].1 && a[1].1 == b[1].1);
        json::reading::lemma_decimal_injective(left->0.user_us as nat, right->0.user_us as nat);
        json::reading::lemma_decimal_injective(left->0.system_us as nat, right->0.system_us as nat);
    }
}

proof fn lemma_stats_flat(entries: Seq<(Seq<char>, u64)>)
    ensures
        telling::all_flat(stats::stats_fields(entries)),
{
    let fields = stats::stats_fields(entries);
    assert forall|i: int| 0 <= i < fields.len() implies telling::is_flat(#[trigger] fields[i].1) by {
        assert(fields[i].1 == text::decimal(entries[i].1 as nat));
    }
}

/// Counters are listed one by one, each name with the decimal of its value, so that counters that
/// differ in a name or a value have different lists.
pub proof fn stats_lines_tell_counters_apart(
    left: Seq<(Seq<char>, u64)>,
    right: Seq<(Seq<char>, u64)>,
)
    requires
        json::object(stats::stats_fields(left)) == json::object(stats::stats_fields(right)),
    ensures
        left == right,
{
    lemma_stats_flat(left);
    lemma_stats_flat(right);
    let a = stats::stats_fields(left);
    let b = stats::stats_fields(right);
    telling::flat_objects_tell_members_apart(a, b);
    assert(left.len() == a.len() && right.len() == b.len());
    assert forall|i: int| 0 <= i < left.len() implies left[i] == right[i] by {
        assert(a[i] == b[i]);
        assert(a[i] == (left[i].0, text::decimal(left[i].1 as nat)));
        assert(b[i] == (right[i].0, text::decimal(right[i].1 as nat)));
        json::reading::lemma_decimal_injective(left[i].1 as nat, right[i].1 as nat);
    }
    assert(left =~= right);
}

/// The payload of a seed is one stream: a shorter payload is the start of a longer one, and what is
/// left of it after whole words is the payload of the state that the generator has then reached.
pub proof fn payloads_are_one_stream(seed: u64, words: nat, length: nat)
    ensures
        payload::payload(seed, words * 8 + length).len() == words * 8 + length,
        payload::payload(seed, words * 8 + length).take((words * 8) as int) == payload::payload(
            seed,
            words * 8,
        ),
        payload::payload(seed, words * 8 + length).skip((words * 8) as int) == payload::payload(
            payload::state_after(seed, words),
            length,
        ),
{
    let whole = payload::payload(seed, words * 8 + length);
    assert(whole.take((words * 8) as int) =~= payload::payload(seed, words * 8));
    let rest = payload::payload(payload::state_after(seed, words), length);
    assert forall|k: int| 0 <= k < length implies whole[words * 8 + k] == #[trigger] rest[k] by {
        let at = (words * 8 + k) as nat;
        assert(at / 8 == words + k as nat / 8 && at % 8 == k as nat % 8);
        lemma_states_add(seed, words, k as nat / 8 + 1);
    }
    assert(whole.skip((words * 8) as int) =~= rest);
}

proof fn lemma_states_add(state: u64, first: nat, more: nat)
    ensures
        payload::state_after(state, first + more) == payload::state_after(
            payload::state_after(state, first),
            more,
        ),
    decreases more,
{
    if more > 0 {
        lemma_states_add(state, first, (more - 1) as nat);
    }
}

/// A payload is cut into chunks of one size but for the last, which lie one after the other: a chunk
/// holds the bytes that follow those of all chunks before it, up to the end.
pub proof fn chunks_lie_one_after_the_other(bytes: Seq<u8>, size: int, k: int)
    requires
        size > 0,
        0 <= k,
        k * size < bytes.len(),
    ensures
        ({
            let chunk = payload::chunk_at(bytes, size, k);
            let start = k * size;
            &&& 0 <= start
            &&& 0 < chunk.len() <= size
            &&& chunk.len() == size || start + chunk.len() == bytes.len()
            &&& start + chunk.len() <= bytes.len()
            &&& bytes.take(start) + chunk == bytes.take(start + chunk.len())
        }),
{
    assert((k + 1) * size == k * size + size && 0 <= k * size) by (nonlinear_arith)
        requires
            size > 0,
            k >= 0,
    ;
    let chunk = payload::chunk_at(bytes, size, k);
    let start = k * size;
    assert(bytes.take(start) + chunk =~= bytes.take(start + chunk.len()));
}

/// The bytes of a generated word come least significant first: they are the digits of the word in base
/// 256, so that a word is told by its bytes.
pub proof fn words_are_told_by_their_bytes(word: u64, k: nat)
    ensures
        payload::word_byte(word, 0) == word % 256,
        payload::word_byte(word, k + 1) == payload::word_byte(word / 256, k),
        word == word / 256 * 256 + payload::word_byte(word, 0),
{
}

/// A result is on its case, holds the bytes that arrived, and has the time of its sample both in
/// nanoseconds and in whole microseconds; where the length is right, it holds the bytes of the case.
pub proof fn results_measure_their_sample(
    result: BenchmarkResult,
    case: BenchmarkCase,
    sample: TimingSample,
    integrity: IntegrityResult,
)
    requires
        result.measures(case, sample, integrity),
        BenchmarkResult::sample_error(case, sample, integrity) is None,
    ensures
        result.case_id@ == case.case_id@,
        result.repeat == case.repeat,
        result.transport == case.transport,
        result.scenario == case.scenario,
        result.chunk_size == case.chunk_size,
        result.window == case.window,
        result.timing_mode == sample.mode,
        result.completion_policy == case.completion_policy,
        result.bytes == integrity.actual_bytes,
        result.integrity == integrity,
        result.elapsed_ns == sample.elapsed,
        result.elapsed_us * 1000 <= result.elapsed_ns < result.elapsed_us * 1000 + 1000,
        integrity.expected_bytes == integrity.actual_bytes ==> result.bytes == case.transfer_bytes,
{
}

/// Times add up: the time of two measurements, the second begun where the first ended, is that of one
/// over both.
pub proof fn measured_times_add_up(
    first: TimingSample,
    second: TimingSample,
    both: TimingSample,
    begun: u128,
    between: u128,
    ended: u128,
)
    requires
        first.spans(begun, between),
        second.spans(between, ended),
        both.spans(begun, ended),
        begun <= between <= ended,
    ensures
        first.elapsed + second.elapsed == both.elapsed,
        both.elapsed == ended - begun,
{
}

/// A file sink takes bytes in order: after two chunks that were written it holds what two chunks put
/// together would have left, and it has counted both.
pub proof fn file_sinks_take_bytes_in_order(
    first: payload::FileSinkView,
    second: payload::FileSinkView,
    third: payload::FileSinkView,
    chunk: Seq<u8>,
    next: Seq<u8>,
)
    requires
        second.follows(first, chunk, true),
        third.follows(second, next, true),
    ensures
        third.follows(first, chunk + next, true),
        third.written == first.written + (chunk + next),
        third.counted == first.counted + chunk.len() + next.len(),
        third.expected_bytes == first.expected_bytes,
        third.expected_crc32 == first.expected_crc32,
{
    assert(third.written =~= first.written + (chunk + next));
}

} // verus!
