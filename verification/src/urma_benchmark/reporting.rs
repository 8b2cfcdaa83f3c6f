//! What the counters of a run say, and under which names.

use vstd::prelude::*;

use super::control::PayloadPollStats;
use super::stats;
use super::stats::{ChildReport, ParentReport, UrmaTransportStats};
use super::{ratio, CreditReturnView, RemoteCreditView};
use crate::benchmark::BenchmarkCase;
use crate::buffer::BufferPoolConfig;
use crate::completion::{CompletionDiagnostic, CompletionStats, PendingWrSnapshot};
use crate::buffer::SlotStateSnapshot;
use crate::json;
use crate::text;

verus! {

/// What a run counted is what its sides counted: the parent its sends, the child its receives, both
/// together what both do, the longest of either where the longest counts, and the run's own settings.
pub proof fn runs_count_both_sides(
    case: BenchmarkCase,
    pool: BufferPoolConfig,
    parent: CompletionStats,
    child: CompletionStats,
    bytes_sent: u64,
    bytes_received: u64,
    receive_credit: usize,
)
    ensures
        ({
            let stats = UrmaTransportStats::combined(
                case,
                pool,
                parent,
                child,
                bytes_sent,
                bytes_received,
                receive_credit,
            );
            &&& stats.send_post == parent.send_post
            &&& stats.send_post_calls == parent.send_post_calls
            &&& stats.send_post_list_max == parent.send_post_list_max
            &&& stats.send_cqe == parent.send_cqe
            &&& stats.send_retired == parent.send_retired
            &&& stats.max_outstanding_send == parent.max_outstanding_send
            &&& stats.recv_post == child.recv_post
            &&& stats.recv_post_calls == child.recv_post_calls
            &&& stats.recv_post_list_max == child.recv_post_list_max
            &&& stats.recv_cqe == child.recv_cqe
            &&& parent.cqe_error + child.cqe_error <= u64::MAX ==> stats.cqe_error == parent.cqe_error + child.cqe_error
            &&& parent.poll_calls + child.poll_calls <= u64::MAX ==> stats.poll_calls == parent.poll_calls + child.poll_calls
            &&& parent.empty_polls + child.empty_polls <= u64::MAX ==> stats.empty_polls == parent.empty_polls + child.empty_polls
            &&& parent.send_jfc_poll_calls + child.send_jfc_poll_calls <= u64::MAX ==> stats.send_jfc_poll_calls == parent.send_jfc_poll_calls + child.send_jfc_poll_calls
            &&& parent.send_jfc_empty_polls + child.send_jfc_empty_polls <= u64::MAX ==> stats.send_jfc_empty_polls == parent.send_jfc_empty_polls + child.send_jfc_empty_polls
            &&& parent.recv_jfc_poll_calls + child.recv_jfc_poll_calls <= u64::MAX ==> stats.recv_jfc_poll_calls == parent.recv_jfc_poll_calls + child.recv_jfc_poll_calls
            &&& parent.recv_jfc_empty_polls + child.recv_jfc_empty_polls <= u64::MAX ==> stats.recv_jfc_empty_polls == parent.recv_jfc_empty_polls + child.recv_jfc_empty_polls
            &&& parent.yield_count + child.yield_count <= u64::MAX ==> stats.yield_count == parent.yield_count + child.yield_count
            &&& parent.sleep_count + child.sleep_count <= u64::MAX ==> stats.sleep_count == parent.sleep_count + child.sleep_count
            &&& parent.backoff_sleep_ns + child.backoff_sleep_ns <= u64::MAX ==> stats.backoff_sleep_ns == parent.backoff_sleep_ns + child.backoff_sleep_ns
            &&& parent.jfc_rearm_count + child.jfc_rearm_count <= u64::MAX ==> stats.jfc_rearm_count == parent.jfc_rearm_count + child.jfc_rearm_count
            &&& parent.event_wait_count + child.event_wait_count <= u64::MAX ==> stats.event_wait_count == parent.event_wait_count + child.event_wait_count
            &&& parent.event_wakeup_count + child.event_wakeup_count <= u64::MAX ==> stats.event_wakeup_count == parent.event_wakeup_count + child.event_wakeup_count
            &&& parent.event_timeout_count + child.event_timeout_count <= u64::MAX ==> stats.event_timeout_count == parent.event_timeout_count + child.event_timeout_count
            &&& parent.spurious_wakeup_count + child.spurious_wakeup_count <= u64::MAX ==> stats.spurious_wakeup_count == parent.spurious_wakeup_count + child.spurious_wakeup_count
            &&& parent.event_wait_ns + child.event_wait_ns <= u64::MAX ==> stats.event_wait_ns == parent.event_wait_ns + child.event_wait_ns
            &&& parent.nonempty_polls + child.nonempty_polls <= u64::MAX ==> stats.nonempty_polls == parent.nonempty_polls + child.nonempty_polls
            &&& parent.completion_batch_total + child.completion_batch_total <= u64::MAX ==> stats.completion_batch_total == parent.completion_batch_total + child.completion_batch_total
            &&& stats.max_event_wait_ns >= parent.max_event_wait_ns && stats.max_event_wait_ns >= child.max_event_wait_ns
            &&& stats.max_event_wait_ns == parent.max_event_wait_ns || stats.max_event_wait_ns == child.max_event_wait_ns
            &&& stats.max_empty_streak >= parent.max_empty_streak && stats.max_empty_streak >= child.max_empty_streak
            &&& stats.max_empty_streak == parent.max_empty_streak || stats.max_empty_streak == child.max_empty_streak
            &&& stats.max_completion_poll_gap_ns >= parent.max_completion_poll_gap_ns && stats.max_completion_poll_gap_ns >= child.max_completion_poll_gap_ns
            &&& stats.max_completion_poll_gap_ns == parent.max_completion_poll_gap_ns || stats.max_completion_poll_gap_ns == child.max_completion_poll_gap_ns
            &&& stats.current_outstanding_send == 0
            &&& stats.current_outstanding_recv == 0
            &&& stats.configured_window == case.window
            &&& stats.configured_receive_credit == receive_credit
            &&& stats.slot_size == pool.slot_size
            &&& stats.effective_payload_size == case.chunk_size
            &&& stats.tx_slot_count == pool.tx_slot_count
            &&& stats.rx_slot_count == pool.rx_slot_count
            &&& pool.total() <= u64::MAX ==> stats.total_registered_bytes == pool.total()
            &&& stats.bytes_sent == bytes_sent
            &&& stats.bytes_received == bytes_received
            &&& stats.avg_poll_batch_milli == ratio(
                stats.completion_batch_total,
                stats.nonempty_polls,
                1_000,
            )
            &&& stats.empty_poll_ratio_ppm == ratio(stats.empty_polls, stats.poll_calls, 1_000_000)
        }),
{
}

/// A ratio is the parts of the whole, rounded down: it is the largest number that does not say too
/// much, as far as it can be counted.
pub proof fn ratios_are_rounded_down(numerator: u64, denominator: u64, scale: u64)
    requires
        denominator > 0,
    ensures
        ({
            let parts = ratio(numerator, denominator, scale);
            &&& parts * denominator <= numerator * scale
            &&& parts < u64::MAX ==> numerator * scale < (parts + 1) * denominator
        }),
        ratio(numerator, 0, scale) == 0,
{
    let whole = numerator as int * scale as int;
    let d = denominator as int;
    assert(whole >= 0) by (nonlinear_arith)
        requires
            whole == numerator as int * scale as int,
            numerator >= 0,
            scale >= 0,
    ;
    vstd::arithmetic::div_mod::lemma_fundamental_div_mod(whole, d);
    let q = whole / d;
    let parts = ratio(numerator, denominator, scale) as int;
    assert(q >= 0) by (nonlinear_arith)
        requires
            whole >= 0,
            d > 0,
            q == whole / d,
    ;
    assert(parts * d <= whole && (parts < u64::MAX ==> whole < (parts + 1) * d)) by (nonlinear_arith)
        requires
            d > 0,
            whole == d * q + whole % d,
            0 <= whole % d < d,
            parts == q || (parts == u64::MAX && q > u64::MAX),
    ;
}

/// Each counter of a run stands once under its own name.
pub proof fn transport_counters_are_named(stats: UrmaTransportStats)
    ensures
        ({
            let entries = stats.entries();
            &&& entries.len() == 44
            &&& entries.contains(("send_post"@, stats.send_post))
            &&& entries.contains(("recv_post"@, stats.recv_post))
            &&& entries.contains(("send_post_calls"@, stats.send_post_calls))
            &&& entries.contains(("recv_post_calls"@, stats.recv_post_calls))
            &&& entries.contains(("send_post_list_max"@, stats.send_post_list_max))
            &&& entries.contains(("recv_post_list_max"@, stats.recv_post_list_max))
            &&& entries.contains(("send_cqe"@, stats.send_cqe))
            &&& entries.contains(("send_retired"@, stats.send_retired))
            &&& entries.contains(("recv_cqe"@, stats.recv_cqe))
            &&& entries.contains(("cqe_error"@, stats.cqe_error))
            &&& entries.contains(("poll_calls"@, stats.poll_calls))
            &&& entries.contains(("empty_polls"@, stats.empty_polls))
            &&& entries.contains(("send_jfc_poll_calls"@, stats.send_jfc_poll_calls))
            &&& entries.contains(("send_jfc_empty_polls"@, stats.send_jfc_empty_polls))
            &&& entries.contains(("recv_jfc_poll_calls"@, stats.recv_jfc_poll_calls))
            &&& entries.contains(("recv_jfc_empty_polls"@, stats.recv_jfc_empty_polls))
            &&& entries.contains(("yield_count"@, stats.yield_count))
            &&& entries.contains(("sleep_count"@, stats.sleep_count))
            &&& entries.contains(("backoff_sleep_ns"@, stats.backoff_sleep_ns))
            &&& entries.contains(("jfc_rearm_count"@, stats.jfc_rearm_count))
            &&& entries.contains(("event_wait_count"@, stats.event_wait_count))
            &&& entries.contains(("event_wakeup_count"@, stats.event_wakeup_count))
            &&& entries.contains(("event_timeout_count"@, stats.event_timeout_count))
            &&& entries.contains(("spurious_wakeup_count"@, stats.spurious_wakeup_count))
            &&& entries.contains(("event_wait_ns"@, stats.event_wait_ns))
            &&& entries.contains(("max_event_wait_ns"@, stats.max_event_wait_ns))
            &&& entries.contains(("max_empty_streak"@, stats.max_empty_streak))
            &&& entries.contains(("nonempty_polls"@, stats.nonempty_polls))
            &&& entries.contains(("completion_batch_total"@, stats.completion_batch_total))
            &&& entries.contains(("avg_poll_batch_milli"@, stats.avg_poll_batch_milli))
            &&& entries.contains(("empty_poll_ratio_ppm"@, stats.empty_poll_ratio_ppm))
            &&& entries.contains(("max_completion_poll_gap_ns"@, stats.max_completion_poll_gap_ns))
            &&& entries.contains(("max_outstanding_send"@, stats.max_outstanding_send))
            &&& entries.contains(("current_outstanding_send"@, stats.current_outstanding_send))
            &&& entries.contains(("current_outstanding_recv"@, stats.current_outstanding_recv))
            &&& entries.contains(("configured_window"@, stats.configured_window))
            &&& entries.contains(("configured_receive_credit"@, stats.configured_receive_credit))
            &&& entries.contains(("slot_size"@, stats.slot_size))
            &&& entries.contains(("effective_payload_size"@, stats.effective_payload_size))
            &&& entries.contains(("tx_slot_count"@, stats.tx_slot_count))
            &&& entries.contains(("rx_slot_count"@, stats.rx_slot_count))
            &&& entries.contains(("total_registered_bytes"@, stats.total_registered_bytes))
            &&& entries.contains(("bytes_sent"@, stats.bytes_sent))
            &&& entries.contains(("bytes_received"@, stats.bytes_received))
        }),
{
    let entries = stats.entries();
    assert(entries[0].0 == "send_post"@);
    assert(entries[1].0 == "recv_post"@);
    assert(entries[2].0 == "send_post_calls"@);
    assert(entries[3].0 == "recv_post_calls"@);
    assert(entries[4].0 == "send_post_list_max"@);
    assert(entries[5].0 == "recv_post_list_max"@);
    assert(entries[6].0 == "send_cqe"@);
    assert(entries[7].0 == "send_retired"@);
    assert(entries[8].0 == "recv_cqe"@);
    assert(entries[9].0 == "cqe_error"@);
    assert(entries[10].0 == "poll_calls"@);
    assert(entries[11].0 == "empty_polls"@);
    assert(entries[12].0 == "send_jfc_poll_calls"@);
    assert(entries[13].0 == "send_jfc_empty_polls"@);
    assert(entries[14].0 == "recv_jfc_poll_calls"@);
    assert(entries[15].0 == "recv_jfc_empty_polls"@);
    assert(entries[16].0 == "yield_count"@);
    assert(entries[17].0 == "sleep_count"@);
    assert(entries[18].0 == "backoff_sleep_ns"@);
    assert(entries[19].0 == "jfc_rearm_count"@);
    assert(entries[20].0 == "event_wait_count"@);
    assert(entries[21].0 == "event_wakeup_count"@);
    assert(entries[22].0 == "event_timeout_count"@);
    assert(entries[23].0 == "spurious_wakeup_count"@);
    assert(entries[24].0 == "event_wait_ns"@);
    assert(entries[25].0 == "max_event_wait_ns"@);
    assert(entries[26].0 == "max_empty_streak"@);
    assert(entries[27].0 == "nonempty_polls"@);
    assert(entries[28].0 == "completion_batch_total"@);
    assert(entries[29].0 == "avg_poll_batch_milli"@);
    assert(entries[30].0 == "empty_poll_ratio_ppm"@);
    assert(entries[31].0 == "max_completion_poll_gap_ns"@);
    assert(entries[32].0 == "max_outstanding_send"@);
    assert(entries[33].0 == "current_outstanding_send"@);
    assert(entries[34].0 == "current_outstanding_recv"@);
    assert(entries[35].0 == "configured_window"@);
    assert(entries[36].0 == "configured_receive_credit"@);
    assert(entries[37].0 == "slot_size"@);
    assert(entries[38].0 == "effective_payload_size"@);
    assert(entries[39].0 == "tx_slot_count"@);
    assert(entries[40].0 == "rx_slot_count"@);
    assert(entries[41].0 == "total_registered_bytes"@);
    assert(entries[42].0 == "bytes_sent"@);
    assert(entries[43].0 == "bytes_received"@);
}

/// Each counter of the payload phase stands under its side's own name, the ratios with them.
pub proof fn payload_counters_are_named(poll: PayloadPollStats, role: Seq<char>)
    ensures
        ({
            let entries = poll.entries(role);
            &&& entries.len() == 9
            &&& entries.contains((stats::payload_name(role, "poll_calls"@), poll.poll_calls))
            &&& entries.contains((stats::payload_name(role, "empty_polls"@), poll.empty_polls))
            &&& entries.contains((stats::payload_name(role, "send_jfc_poll_calls"@), poll.send_jfc_poll_calls))
            &&& entries.contains((stats::payload_name(role, "send_jfc_empty_polls"@), poll.send_jfc_empty_polls))
            &&& entries.contains((stats::payload_name(role, "recv_jfc_poll_calls"@), poll.recv_jfc_poll_calls))
            &&& entries.contains((stats::payload_name(role, "recv_jfc_empty_polls"@), poll.recv_jfc_empty_polls))
            &&& entries.contains((stats::payload_name(role, "empty_poll_ratio_ppm"@), ratio(poll.empty_polls, poll.poll_calls, 1_000_000)))
            &&& entries.contains((stats::payload_name(role, "send_jfc_empty_ratio_ppm"@), ratio(poll.send_jfc_empty_polls, poll.send_jfc_poll_calls, 1_000_000)))
            &&& entries.contains((stats::payload_name(role, "recv_jfc_empty_ratio_ppm"@), ratio(poll.recv_jfc_empty_polls, poll.recv_jfc_poll_calls, 1_000_000)))
        }),
{
    let entries = poll.entries(role);
    assert(entries[0].0 == stats::payload_name(role, "poll_calls"@));
    assert(entries[1].0 == stats::payload_name(role, "empty_polls"@));
    assert(entries[2].0 == stats::payload_name(role, "send_jfc_poll_calls"@));
    assert(entries[3].0 == stats::payload_name(role, "send_jfc_empty_polls"@));
    assert(entries[4].0 == stats::payload_name(role, "recv_jfc_poll_calls"@));
    assert(entries[5].0 == stats::payload_name(role, "recv_jfc_empty_polls"@));
    assert(entries[6].0 == stats::payload_name(role, "empty_poll_ratio_ppm"@));
    assert(entries[7].0 == stats::payload_name(role, "send_jfc_empty_ratio_ppm"@));
    assert(entries[8].0 == stats::payload_name(role, "recv_jfc_empty_ratio_ppm"@));
}

/// Each counter of a parent's report stands under its own name.
pub proof fn parent_counters_are_named(report: ParentReport)
    ensures
        ({
            let entries = stats::parent_entries(report);
            &&& entries.len() == 13
            &&& entries.contains(("fixed_tx_profile"@, if report.fixed_tx { 1u64 } else { 0u64 }))
            &&& entries.contains(("direct_file_tx"@, if report.file { 1u64 } else { 0u64 }))
            &&& entries.contains(("file_mmap_tx"@, if report.file_mmap { 1u64 } else { 0u64 }))
            &&& entries.contains(("file_pread_calls"@, report.fill.pread_calls))
            &&& entries.contains(("file_pread_bytes"@, report.fill.pread_bytes))
            &&& entries.contains(("file_pread_ns"@, report.fill.pread_ns))
            &&& entries.contains(("file_tx_batch_count"@, report.fill.file_batch_count))
            &&& entries.contains(("file_tx_batch_max_bytes"@, report.fill.file_batch_max_bytes))
            &&& entries.contains(("tx_fill_bytes"@, report.fill.fill_bytes))
            &&& entries.contains(("tx_fill_ns"@, report.fill.fill_ns))
            &&& entries.contains(("tx_fill_overlap_batches"@, report.fill.overlap_batches))
            &&& entries.contains(("tx_ring_windows"@, report.fill.ring_windows))
            &&& entries.contains(("parent_elapsed_ns"@, report.elapsed_ns))
        }),
{
    let entries = stats::parent_entries(report);
    assert(entries[0].0 == "fixed_tx_profile"@);
    assert(entries[1].0 == "direct_file_tx"@);
    assert(entries[2].0 == "file_mmap_tx"@);
    assert(entries[3].0 == "file_pread_calls"@);
    assert(entries[4].0 == "file_pread_bytes"@);
    assert(entries[5].0 == "file_pread_ns"@);
    assert(entries[6].0 == "file_tx_batch_count"@);
    assert(entries[7].0 == "file_tx_batch_max_bytes"@);
    assert(entries[8].0 == "tx_fill_bytes"@);
    assert(entries[9].0 == "tx_fill_ns"@);
    assert(entries[10].0 == "tx_fill_overlap_batches"@);
    assert(entries[11].0 == "tx_ring_windows"@);
    assert(entries[12].0 == "parent_elapsed_ns"@);
}

/// Each counter of a child's report stands under its own name.
pub proof fn child_counters_are_named(report: ChildReport, credit: CreditReturnView)
    ensures
        ({
            let entries = stats::child_entries(report, credit);
            &&& entries.len() == 16
            &&& entries.contains(("remote_credit_initial"@, report.initial_credit as u64))
            &&& entries.contains(("remote_credit_returned"@, credit.returned as u64))
            &&& entries.contains(("remote_credit_updates"@, credit.updates as u64))
            &&& entries.contains(("remote_credit_pending"@, credit.pending as u64))
            &&& entries.contains(("remote_credit_wait_count"@, 0u64))
            &&& entries.contains(("remote_credit_wait_ns"@, 0u64))
            &&& entries.contains(("remote_credit_max_wait_ns"@, 0u64))
            &&& entries.contains(("remote_credit_consumed"@, 0u64))
            &&& entries.contains(("registered_rx_window_count"@, report.windows.count as u64))
            &&& entries.contains(("registered_rx_window_chunks"@, report.windows.chunks as u64))
            &&& entries.contains(("registered_rx_window_bytes"@, (report.windows.chunks * report.slot_size) as u64))
            &&& entries.contains(("rx_bounce_copy"@, 0u64))
            &&& entries.contains(("parallel_crc_workers"@, report.workers as u64))
            &&& entries.contains(("transport_only"@, if report.transport_only { 1u64 } else { 0u64 }))
            &&& entries.contains(("post_transport_verification_ns"@, report.verification_ns))
            &&& entries.contains(("direct_file_pwrite"@, if report.file { 1u64 } else { 0u64 }))
        }),
{
    let entries = stats::child_entries(report, credit);
    assert(entries[0].0 == "remote_credit_initial"@);
    assert(entries[1].0 == "remote_credit_returned"@);
    assert(entries[2].0 == "remote_credit_updates"@);
    assert(entries[3].0 == "remote_credit_pending"@);
    assert(entries[4].0 == "remote_credit_wait_count"@);
    assert(entries[5].0 == "remote_credit_wait_ns"@);
    assert(entries[6].0 == "remote_credit_max_wait_ns"@);
    assert(entries[7].0 == "remote_credit_consumed"@);
    assert(entries[8].0 == "registered_rx_window_count"@);
    assert(entries[9].0 == "registered_rx_window_chunks"@);
    assert(entries[10].0 == "registered_rx_window_bytes"@);
    assert(entries[11].0 == "rx_bounce_copy"@);
    assert(entries[12].0 == "parallel_crc_workers"@);
    assert(entries[13].0 == "transport_only"@);
    assert(entries[14].0 == "post_transport_verification_ns"@);
    assert(entries[15].0 == "direct_file_pwrite"@);
}

/// Each counter of a sender's credit stands under its own name.
pub proof fn credit_counters_are_named(credit: RemoteCreditView)
    ensures
        ({
            let entries = stats::credit_entries(credit);
            &&& entries.len() == 8
            &&& entries.contains(("remote_credit_initial"@, credit.initial as u64))
            &&& entries.contains(("remote_credit_returned"@, credit.returned as u64))
            &&& entries.contains(("remote_credit_consumed"@, credit.consumed as u64))
            &&& entries.contains(("remote_credit_updates"@, credit.updates as u64))
            &&& entries.contains(("remote_credit_wait_count"@, credit.waits as u64))
            &&& entries.contains(("remote_credit_pending"@, credit.available as u64))
            &&& entries.contains(("remote_credit_wait_ns"@, credit.wait_ns))
            &&& entries.contains(("remote_credit_max_wait_ns"@, credit.max_wait_ns))
        }),
{
    let entries = stats::credit_entries(credit);
    assert(entries[0].0 == "remote_credit_initial"@);
    assert(entries[1].0 == "remote_credit_returned"@);
    assert(entries[2].0 == "remote_credit_consumed"@);
    assert(entries[3].0 == "remote_credit_updates"@);
    assert(entries[4].0 == "remote_credit_wait_count"@);
    assert(entries[5].0 == "remote_credit_pending"@);
    assert(entries[6].0 == "remote_credit_wait_ns"@);
    assert(entries[7].0 == "remote_credit_max_wait_ns"@);
}

/// Counters that are added one list after the other keep what no later list names, and have the last
/// value that a list gives.
pub proof fn later_counters_replace_earlier_ones(
    counters: Map<Seq<char>, u64>,
    entries: Seq<(Seq<char>, u64)>,
    name: Seq<char>,
)
    ensures
        ({
            let after = stats::with_entries(counters, entries);
            &&& (forall|i: int| 0 <= i < entries.len() ==> (#[trigger] entries[i]).0 != name) ==> {
                &&& after.contains_key(name) == counters.contains_key(name)
                &&& counters.contains_key(name) ==> after[name] == counters[name]
            }
            &&& forall|i: int|
                #![trigger entries[i]]
                0 <= i < entries.len() && entries[i].0 == name && (forall|j: int|
                    i < j < entries.len() ==> (#[trigger] entries[j]).0 != name)
                    ==> after.contains_key(name) && after[name] == entries[i].1
        }),
    decreases entries.len(),
{
    if entries.len() > 0 {
        let shorter = entries.drop_last();
        later_counters_replace_earlier_ones(counters, shorter, name);
        let last = entries.len() - 1;
        let before = stats::with_entries(counters, shorter);
        if forall|i: int| 0 <= i < entries.len() ==> (#[trigger] entries[i]).0 != name {
            assert(entries[last].0 != name);
            assert forall|i: int| 0 <= i < shorter.len() implies (#[trigger] shorter[i]).0
                != name by {
                assert(shorter[i] == entries[i]);
            }
        }
        assert forall|i: int|
            #![trigger entries[i]]
            0 <= i < entries.len() && entries[i].0 == name && (forall|j: int|
                i < j < entries.len() ==> (#[trigger] entries[j]).0 != name) implies
            stats::with_entries(counters, entries).contains_key(name) && stats::with_entries(
            counters,
            entries,
        )[name] == entries[i].1 by {
            if i < last {
                assert(entries[last].0 != name);
                assert(shorter[i] == entries[i]);
                assert forall|j: int| i < j < shorter.len() implies (#[trigger] shorter[j]).0
                    != name by {
                    assert(shorter[j] == entries[j]);
                }
            }
        }
    }
}

/// A work request that is pending is reported with its sequence, its slot and the slot's state.
pub proof fn pending_requests_are_reported(item: PendingWrSnapshot)
    ensures
        ({
            let fields = stats::pending_fields(item);
            &&& fields.len() == 3
            &&& fields.contains(("slot_id"@, text::decimal(item.slot.position())))
            &&& fields.contains(("slot_state"@, json::string(item.state.name())))
            &&& item.sequence matches Some(sequence) ==> fields.contains(
                ("sequence"@, text::decimal(sequence as nat)),
            )
            &&& item.sequence is None ==> fields.contains(("sequence"@, "null"@))
        }),
{
    let fields = stats::pending_fields(item);
    assert(fields[0].0 == "sequence"@ && fields[1].0 == "slot_id"@ && fields[2].0 == "slot_state"@);
}

/// A parent that timed out reports its window, what is outstanding, what it counted and what became of
/// its send slots, each under its own name.
pub proof fn parent_timeouts_are_reported(
    operation: Seq<char>,
    window: nat,
    current: nat,
    outstanding_send: nat,
    stats: CompletionStats,
    slots: SlotStateSnapshot,
    diagnostic: CompletionDiagnostic,
)
    ensures
        ({
            let fields = stats::parent_timeout_fields(
                operation,
                window,
                current,
                outstanding_send,
                stats,
                slots,
                diagnostic,
            );
            &&& fields.len() == 18
            &&& fields.contains(("event"@, json::string("urma_benchmark_timeout"@)))
            &&& fields.contains(("role"@, json::string("parent"@)))
            &&& fields.contains(("operation"@, json::string(operation)))
            &&& fields.contains(("configured_window"@, text::decimal(window)))
            &&& fields.contains(("current_outstanding_send"@, text::decimal(outstanding_send)))
            &&& fields.contains(("pipeline_tracker_current"@, text::decimal(current)))
            &&& fields.contains(
                ("max_outstanding_send"@, text::decimal(stats.max_outstanding_send as nat)),
            )
            &&& fields.contains(("send_post"@, text::decimal(stats.send_post as nat)))
            &&& fields.contains(("send_cqe"@, text::decimal(stats.send_cqe as nat)))
            &&& fields.contains(("recv_post"@, text::decimal(stats.recv_post as nat)))
            &&& fields.contains(("recv_cqe"@, text::decimal(stats.recv_cqe as nat)))
            &&& fields.contains(("cqe_error"@, text::decimal(stats.cqe_error as nat)))
            &&& fields.contains(("poll_calls"@, text::decimal(stats.poll_calls as nat)))
            &&& fields.contains(("empty_polls"@, text::decimal(stats.empty_polls as nat)))
            &&& fields.contains(("connection_outstanding_send"@, text::decimal(outstanding_send)))
            &&& fields.contains(
                (
                    "last_completed_sequence"@,
                    stats::sequence_json(diagnostic.last_completed_sequence),
                ),
            )
        }),
{
    let fields = stats::parent_timeout_fields(
        operation,
        window,
        current,
        outstanding_send,
        stats,
        slots,
        diagnostic,
    );
    assert(fields[0].0 == "event"@ && fields[1].0 == "role"@ && fields[2].0 == "operation"@);
    assert(fields[3].0 == "configured_window"@ && fields[4].0 == "current_outstanding_send"@);
    assert(fields[5].0 == "pipeline_tracker_current"@ && fields[6].0 == "max_outstanding_send"@);
    assert(fields[7].0 == "send_post"@ && fields[8].0 == "send_cqe"@ && fields[9].0 == "recv_post"@);
    assert(fields[10].0 == "recv_cqe"@ && fields[11].0 == "cqe_error"@);
    assert(fields[12].0 == "poll_calls"@ && fields[13].0 == "empty_polls"@);
    assert(fields[14].0 == "connection_outstanding_send"@);
    assert(fields[15].0 == "last_completed_sequence"@);
}

/// A child that timed out reports its credit, what is outstanding, what it counted and what became of
/// its receive slots, each under its own name.
pub proof fn child_timeouts_are_reported(
    credit: super::CreditView,
    receive_credit: nat,
    outstanding_recv: nat,
    stats: CompletionStats,
    slots: SlotStateSnapshot,
    diagnostic: CompletionDiagnostic,
)
    ensures
        ({
            let fields = stats::child_timeout_fields(
                credit,
                receive_credit,
                outstanding_recv,
                stats,
                slots,
                diagnostic,
            );
            &&& fields.len() == 18
            &&& fields.contains(("event"@, json::string("urma_benchmark_timeout"@)))
            &&& fields.contains(("role"@, json::string("child"@)))
            &&& fields.contains(("operation"@, json::string("benchmark_receive"@)))
            &&& fields.contains(("configured_receive_credit"@, text::decimal(credit.configured)))
            &&& fields.contains(("current_receive_credit"@, text::decimal(receive_credit)))
            &&& fields.contains(("benchmark_credit_current"@, text::decimal(credit.current)))
            &&& fields.contains(
                ("benchmark_credit_remaining_messages"@, text::decimal(credit.remaining)),
            )
            &&& fields.contains(("recv_post"@, text::decimal(stats.recv_post as nat)))
            &&& fields.contains(("recv_cqe"@, text::decimal(stats.recv_cqe as nat)))
            &&& fields.contains(("send_post"@, text::decimal(stats.send_post as nat)))
            &&& fields.contains(("send_cqe"@, text::decimal(stats.send_cqe as nat)))
            &&& fields.contains(("cqe_error"@, text::decimal(stats.cqe_error as nat)))
            &&& fields.contains(("poll_calls"@, text::decimal(stats.poll_calls as nat)))
            &&& fields.contains(("empty_polls"@, text::decimal(stats.empty_polls as nat)))
            &&& fields.contains(("connection_outstanding_recv"@, text::decimal(outstanding_recv)))
            &&& fields.contains(
                (
                    "last_completed_sequence"@,
                    stats::sequence_json(diagnostic.last_completed_sequence),
                ),
            )
        }),
{
    let fields = stats::child_timeout_fields(
        credit,
        receive_credit,
        outstanding_recv,
        stats,
        slots,
        diagnostic,
    );
    assert(fields[0].0 == "event"@ && fields[1].0 == "role"@ && fields[2].0 == "operation"@);
    assert(fields[3].0 == "configured_receive_credit"@ && fields[4].0 == "current_receive_credit"@);
    assert(fields[5].0 == "benchmark_credit_current"@);
    assert(fields[6].0 == "benchmark_credit_remaining_messages"@);
    assert(fields[7].0 == "recv_post"@ && fields[8].0 == "recv_cqe"@ && fields[9].0 == "send_post"@);
    assert(fields[10].0 == "send_cqe"@ && fields[11].0 == "cqe_error"@);
    assert(fields[12].0 == "poll_calls"@ && fields[13].0 == "empty_polls"@);
    assert(fields[14].0 == "connection_outstanding_recv"@);
    assert(fields[15].0 == "last_completed_sequence"@);
}

/// Whether a list of counters has a name.
pub open spec fn is_named(entries: Seq<(Seq<char>, u64)>, name: Seq<char>) -> bool {
    exists|i: int| 0 <= i < entries.len() && (#[trigger] entries[i]).0 == name
}

/// Whether a list of counters has a name once, with a value.
pub open spec fn names_once(entries: Seq<(Seq<char>, u64)>, name: Seq<char>, value: u64) -> bool {
    exists|i: int|
        #![trigger entries[i]]
        0 <= i < entries.len() && entries[i] == (name, value) && forall|j: int|
            0 <= j < entries.len() && j != i ==> (#[trigger] entries[j]).0 != name
}

proof fn lemma_held(
    counters: Map<Seq<char>, u64>,
    entries: Seq<(Seq<char>, u64)>,
    name: Seq<char>,
    value: u64,
)
    ensures
        ({
            let after = stats::with_entries(counters, entries);
            &&& is_named(entries, name) || counters.contains_key(name) ==> after.contains_key(name)
            &&& names_once(entries, name, value) ==> after[name] == value
            &&& !is_named(entries, name) && counters.contains_key(name) ==> after[name]
                == counters[name]
        }),
    decreases entries.len(),
{
    if entries.len() > 0 {
        let shorter = entries.drop_last();
        let last = entries.len() - 1;
        lemma_held(counters, shorter, name, value);
        if is_named(shorter, name) {
            let i = choose|i: int| 0 <= i < shorter.len() && (#[trigger] shorter[i]).0 == name;
            assert(entries[i] == shorter[i]);
        }
        if is_named(entries, name) && entries[last].0 != name {
            let i = choose|i: int| 0 <= i < entries.len() && (#[trigger] entries[i]).0 == name;
            assert(shorter[i] == entries[i]);
        }
        if names_once(entries, name, value) {
            let i = choose|i: int|
                #![trigger entries[i]]
                0 <= i < entries.len() && entries[i] == (name, value) && forall|j: int|
                    0 <= j < entries.len() && j != i ==> (#[trigger] entries[j]).0 != name;
            if i < last {
                assert(entries[last].0 != name);
                assert(shorter[i] == (name, value));
                assert forall|j: int| 0 <= j < shorter.len() && j != i implies (
                #[trigger] shorter[j]).0 != name by {
                    assert(shorter[j] == entries[j]);
                }
            }
        }
        if !is_named(entries, name) {
            assert(entries[last].0 != name);
        }
    }
}

/// A parent's report holds every counter of the transport, of the credit, of both payload phases and its
/// own, with the value of the last list that names it.
pub proof fn parent_reports_hold_every_counter(report: ParentReport, credit: RemoteCreditView, name: Seq<char>, value: u64)
    ensures
        ({
            let counters = stats::parent_counters(report, credit);
            &&& is_named(report.stats.entries(), name) ==> counters.contains_key(name)
            &&& names_once(report.stats.entries(), name, value)
                && !is_named(stats::credit_entries(credit), name)
                && !is_named(report.parent_poll.entries("parent"@), name)
                && !is_named(report.child_poll.entries("child"@), name)
                && !is_named(stats::parent_entries(report), name)
                ==> counters[name] == value
            &&& is_named(stats::credit_entries(credit), name) ==> counters.contains_key(name)
            &&& names_once(stats::credit_entries(credit), name, value)
                && !is_named(report.parent_poll.entries("parent"@), name)
                && !is_named(report.child_poll.entries("child"@), name)
                && !is_named(stats::parent_entries(report), name)
                ==> counters[name] == value
            &&& is_named(report.parent_poll.entries("parent"@), name) ==> counters.contains_key(name)
            &&& names_once(report.parent_poll.entries("parent"@), name, value)
                && !is_named(report.child_poll.entries("child"@), name)
                && !is_named(stats::parent_entries(report), name)
                ==> counters[name] == value
            &&& is_named(report.child_poll.entries("child"@), name) ==> counters.contains_key(name)
            &&& names_once(report.child_poll.entries("child"@), name, value)
                && !is_named(stats::parent_entries(report), name)
                ==> counters[name] == value
            &&& is_named(stats::parent_entries(report), name) ==> counters.contains_key(name)
            &&& names_once(stats::parent_entries(report), name, value)
                ==> counters[name] == value
        }),
{
    let list0 = report.stats.entries();
    let map0: Map<Seq<char>, u64> = Map::empty();
    lemma_held(map0, list0, name, value);
    let list1 = stats::credit_entries(credit);
    let map1: Map<Seq<char>, u64> = stats::with_entries(map0, list0);
    lemma_held(map1, list1, name, value);
    let list2 = report.parent_poll.entries("parent"@);
    let map2: Map<Seq<char>, u64> = stats::with_entries(map1, list1);
    lemma_held(map2, list2, name, value);
    let list3 = report.child_poll.entries("child"@);
    let map3: Map<Seq<char>, u64> = stats::with_entries(map2, list2);
    lemma_held(map3, list3, name, value);
    let list4 = stats::parent_entries(report);
    let map4: Map<Seq<char>, u64> = stats::with_entries(map3, list3);
    lemma_held(map4, list4, name, value);
}

/// A child's report holds every counter of the transport, its own, and those of its payload phase, with
/// the value of the last list that names it.
pub proof fn child_reports_hold_every_counter(report: ChildReport, credit: CreditReturnView, name: Seq<char>, value: u64)
    ensures
        ({
            let counters = stats::child_counters(report, credit);
            &&& is_named(report.stats.entries(), name) ==> counters.contains_key(name)
            &&& names_once(report.stats.entries(), name, value)
                && !is_named(stats::child_entries(report, credit), name)
                && !is_named(report.poll.entries("child"@), name)
                ==> counters[name] == value
            &&& is_named(stats::child_entries(report, credit), name) ==> counters.contains_key(name)
            &&& names_once(stats::child_entries(report, credit), name, value)
                && !is_named(report.poll.entries("child"@), name)
                ==> counters[name] == value
            &&& is_named(report.poll.entries("child"@), name) ==> counters.contains_key(name)
            &&& names_once(report.poll.entries("child"@), name, value)
                ==> counters[name] == value
        }),
{
    let list0 = report.stats.entries();
    let map0: Map<Seq<char>, u64> = Map::empty();
    lemma_held(map0, list0, name, value);
    let list1 = stats::child_entries(report, credit);
    let map1: Map<Seq<char>, u64> = stats::with_entries(map0, list0);
    lemma_held(map1, list1, name, value);
    let list2 = report.poll.entries("child"@);
    let map2: Map<Seq<char>, u64> = stats::with_entries(map1, list1);
    lemma_held(map2, list2, name, value);
}

} // verus!
