//! What a run reports: its counters, its processor time, and its state where it timed out.

use vstd::prelude::*;

use super::control::PayloadPollStats;
use super::profile::WindowPlan;
use super::sender::TxFillStats;
use super::{
    scaled_ratio, CreditReturnView, PipelineTracker, ReceiveCreditController, RemoteCreditReturn,
    RemoteCreditView, RemoteReceiveCredit,
};
use crate::benchmark::{BenchmarkCase, BenchmarkResult, CpuUsage, TransportStats};
use crate::buffer::{BufferPoolConfig, SlotStateSnapshot};
use crate::completion;
use crate::completion::{max_u64, CompletionDiagnostic, CompletionStats, PendingWrSnapshot};
use crate::error::{invalid, ErrorView, Result};
use crate::json;
use crate::json::JsonObject;
use crate::text;
use crate::text::decimal_string;

verus! {

/// The counters with some more, each replacing one of the same name.
pub open spec fn with_entries(counters: Map<Seq<char>, u64>, entries: Seq<(Seq<char>, u64)>) -> Map<
    Seq<char>,
    u64,
>
    decreases entries.len(),
{
    if entries.len() == 0 {
        counters
    } else {
        with_entries(counters, entries.drop_last()).insert(entries.last().0, entries.last().1)
    }
}

/// The names as character sequences.
pub open spec fn entry_views(entries: Seq<(String, u64)>) -> Seq<(Seq<char>, u64)> {
    Seq::new(entries.len(), |i: int| (entries[i].0@, entries[i].1))
}

fn add_entry(entries: &mut Vec<(String, u64)>, name: &str, value: u64)
    ensures
        entry_views(final(entries)@) == entry_views(old(entries)@).push((name@, value)),
{
    let ghost before = entry_views(entries@);
    entries.push((name.to_owned(), value));
    assert(entry_views(entries@) =~= before.push((name@, value)));
}

/// Sets each of the counters.
pub fn insert_entries(stats: &mut TransportStats, entries: &Vec<(String, u64)>)
    requires
        old(stats).wf(),
    ensures
        final(stats).wf(),
        final(stats).map() == with_entries(old(stats).map(), entry_views(entries@)),
{
    let ghost views = entry_views(entries@);
    let mut index: usize = 0;
    assert(views.take(0) =~= Seq::<(Seq<char>, u64)>::empty());
    while index < entries.len()
        invariant
            views == entry_views(entries@),
            index <= entries@.len(),
            stats.wf(),
            stats.map() == with_entries(old(stats).map(), views.take(index as int)),
        decreases entries@.len() - index,
    {
        proof {
            assert(views.take(index + 1).drop_last() =~= views.take(index as int));
            assert(views.take(index + 1).last() == views[index as int]);
        }
        stats.insert(entries[index].0.as_str(), entries[index].1);
        index += 1;
    }
    assert(views.take(views.len() as int) =~= views);
}

/// One where it holds, else zero.
pub open spec fn as_number(holds: bool) -> u64 {
    if holds {
        1
    } else {
        0
    }
}

fn bit(holds: bool) -> (number: u64)
    ensures
        number == as_number(holds),
{
    if holds {
        1
    } else {
        0
    }
}

/// The counters of both sides of a run.
#[derive(Clone, Copy, Debug, Eq, PartialEq, Structural)]
pub struct UrmaTransportStats {
    pub send_post: u64,
    pub recv_post: u64,
    pub send_post_calls: u64,
    pub recv_post_calls: u64,
    pub send_post_list_max: u64,
    pub recv_post_list_max: u64,
    pub send_cqe: u64,
    pub send_retired: u64,
    pub recv_cqe: u64,
    pub cqe_error: u64,
    pub poll_calls: u64,
    pub empty_polls: u64,
    pub send_jfc_poll_calls: u64,
    pub send_jfc_empty_polls: u64,
    pub recv_jfc_poll_calls: u64,
    pub recv_jfc_empty_polls: u64,
    pub yield_count: u64,
    pub sleep_count: u64,
    pub backoff_sleep_ns: u64,
    pub jfc_rearm_count: u64,
    pub event_wait_count: u64,
    pub event_wakeup_count: u64,
    pub event_timeout_count: u64,
    pub spurious_wakeup_count: u64,
    pub event_wait_ns: u64,
    pub max_event_wait_ns: u64,
    pub max_empty_streak: u64,
    pub nonempty_polls: u64,
    pub completion_batch_total: u64,
    pub avg_poll_batch_milli: u64,
    pub empty_poll_ratio_ppm: u64,
    pub max_completion_poll_gap_ns: u64,
    pub max_outstanding_send: u64,
    pub current_outstanding_send: u64,
    pub current_outstanding_recv: u64,
    pub configured_window: u64,
    pub configured_receive_credit: u64,
    pub slot_size: u64,
    pub effective_payload_size: u64,
    pub tx_slot_count: u64,
    pub rx_slot_count: u64,
    pub total_registered_bytes: u64,
    pub bytes_sent: u64,
    pub bytes_received: u64,
}

impl UrmaTransportStats {
    /// The counters by name.
    pub open spec fn entries(self) -> Seq<(Seq<char>, u64)> {
        seq![
            ("send_post"@, self.send_post),
            ("recv_post"@, self.recv_post),
            ("send_post_calls"@, self.send_post_calls),
            ("recv_post_calls"@, self.recv_post_calls),
            ("send_post_list_max"@, self.send_post_list_max),
            ("recv_post_list_max"@, self.recv_post_list_max),
            ("send_cqe"@, self.send_cqe),
            ("send_retired"@, self.send_retired),
            ("recv_cqe"@, self.recv_cqe),
            ("cqe_error"@, self.cqe_error),
            ("poll_calls"@, self.poll_calls),
            ("empty_polls"@, self.empty_polls),
            ("send_jfc_poll_calls"@, self.send_jfc_poll_calls),
            ("send_jfc_empty_polls"@, self.send_jfc_empty_polls),
            ("recv_jfc_poll_calls"@, self.recv_jfc_poll_calls),
            ("recv_jfc_empty_polls"@, self.recv_jfc_empty_polls),
            ("yield_count"@, self.yield_count),
            ("sleep_count"@, self.sleep_count),
            ("backoff_sleep_ns"@, self.backoff_sleep_ns),
            ("jfc_rearm_count"@, self.jfc_rearm_count),
            ("event_wait_count"@, self.event_wait_count),
            ("event_wakeup_count"@, self.event_wakeup_count),
            ("event_timeout_count"@, self.event_timeout_count),
            ("spurious_wakeup_count"@, self.spurious_wakeup_count),
            ("event_wait_ns"@, self.event_wait_ns),
            ("max_event_wait_ns"@, self.max_event_wait_ns),
            ("max_empty_streak"@, self.max_empty_streak),
            ("nonempty_polls"@, self.nonempty_polls),
            ("completion_batch_total"@, self.completion_batch_total),
            ("avg_poll_batch_milli"@, self.avg_poll_batch_milli),
            ("empty_poll_ratio_ppm"@, self.empty_poll_ratio_ppm),
            ("max_completion_poll_gap_ns"@, self.max_completion_poll_gap_ns),
            ("max_outstanding_send"@, self.max_outstanding_send),
            ("current_outstanding_send"@, self.current_outstanding_send),
            ("current_outstanding_recv"@, self.current_outstanding_recv),
            ("configured_window"@, self.configured_window),
            ("configured_receive_credit"@, self.configured_receive_credit),
            ("slot_size"@, self.slot_size),
            ("effective_payload_size"@, self.effective_payload_size),
            ("tx_slot_count"@, self.tx_slot_count),
            ("rx_slot_count"@, self.rx_slot_count),
            ("total_registered_bytes"@, self.total_registered_bytes),
            ("bytes_sent"@, self.bytes_sent),
            ("bytes_received"@, self.bytes_received),
        ]
    }

    fn list(self) -> (entries: Vec<(String, u64)>)
        ensures
            entry_views(entries@) == self.entries(),
    {
        let mut entries: Vec<(String, u64)> = Vec::new();
        assert(entry_views(entries@) =~= Seq::<(Seq<char>, u64)>::empty());
        add_entry(&mut entries, "send_post", self.send_post);
        add_entry(&mut entries, "recv_post", self.recv_post);
        add_entry(&mut entries, "send_post_calls", self.send_post_calls);
        add_entry(&mut entries, "recv_post_calls", self.recv_post_calls);
        add_entry(&mut entries, "send_post_list_max", self.send_post_list_max);
        add_entry(&mut entries, "recv_post_list_max", self.recv_post_list_max);
        add_entry(&mut entries, "send_cqe", self.send_cqe);
        add_entry(&mut entries, "send_retired", self.send_retired);
        add_entry(&mut entries, "recv_cqe", self.recv_cqe);
        add_entry(&mut entries, "cqe_error", self.cqe_error);
        add_entry(&mut entries, "poll_calls", self.poll_calls);
        add_entry(&mut entries, "empty_polls", self.empty_polls);
        add_entry(&mut entries, "send_jfc_poll_calls", self.send_jfc_poll_calls);
        add_entry(&mut entries, "send_jfc_empty_polls", self.send_jfc_empty_polls);
        add_entry(&mut entries, "recv_jfc_poll_calls", self.recv_jfc_poll_calls);
        add_entry(&mut entries, "recv_jfc_empty_polls", self.recv_jfc_empty_polls);
        add_entry(&mut entries, "yield_count", self.yield_count);
        add_entry(&mut entries, "sleep_count", self.sleep_count);
        add_entry(&mut entries, "backoff_sleep_ns", self.backoff_sleep_ns);
        add_entry(&mut entries, "jfc_rearm_count", self.jfc_rearm_count);
        add_entry(&mut entries, "event_wait_count", self.event_wait_count);
        add_entry(&mut entries, "event_wakeup_count", self.event_wakeup_count);
        add_entry(&mut entries, "event_timeout_count", self.event_timeout_count);
        add_entry(&mut entries, "spurious_wakeup_count", self.spurious_wakeup_count);
        add_entry(&mut entries, "event_wait_ns", self.event_wait_ns);
        add_entry(&mut entries, "max_event_wait_ns", self.max_event_wait_ns);
        add_entry(&mut entries, "max_empty_streak", self.max_empty_streak);
        add_entry(&mut entries, "nonempty_polls", self.nonempty_polls);
        add_entry(&mut entries, "completion_batch_total", self.completion_batch_total);
        add_entry(&mut entries, "avg_poll_batch_milli", self.avg_poll_batch_milli);
        add_entry(&mut entries, "empty_poll_ratio_ppm", self.empty_poll_ratio_ppm);
        add_entry(&mut entries, "max_completion_poll_gap_ns", self.max_completion_poll_gap_ns);
        add_entry(&mut entries, "max_outstanding_send", self.max_outstanding_send);
        add_entry(&mut entries, "current_outstanding_send", self.current_outstanding_send);
        add_entry(&mut entries, "current_outstanding_recv", self.current_outstanding_recv);
        add_entry(&mut entries, "configured_window", self.configured_window);
        add_entry(&mut entries, "configured_receive_credit", self.configured_receive_credit);
        add_entry(&mut entries, "slot_size", self.slot_size);
        add_entry(&mut entries, "effective_payload_size", self.effective_payload_size);
        add_entry(&mut entries, "tx_slot_count", self.tx_slot_count);
        add_entry(&mut entries, "rx_slot_count", self.rx_slot_count);
        add_entry(&mut entries, "total_registered_bytes", self.total_registered_bytes);
        add_entry(&mut entries, "bytes_sent", self.bytes_sent);
        add_entry(&mut entries, "bytes_received", self.bytes_received);
        assert(entry_views(entries@) =~= self.entries());
        entries
    }

    /// Sets each of the counters.
    pub fn insert_all(self, output: &mut TransportStats)
        requires
            old(output).wf(),
        ensures
            final(output).wf(),
            final(output).map() == with_entries(old(output).map(), self.entries()),
    {
        let entries = self.list();
        insert_entries(output, &entries);
    }

    /// What both sides of a run counted: sends on the parent, receives on the child, the rest on both.
    pub open spec fn combined(
        case: BenchmarkCase,
        pool: BufferPoolConfig,
        parent: CompletionStats,
        child: CompletionStats,
        bytes_sent: u64,
        bytes_received: u64,
        receive_credit: usize,
    ) -> Self {
        UrmaTransportStats {
            send_post: parent.send_post,
            recv_post: child.recv_post,
            send_post_calls: parent.send_post_calls,
            recv_post_calls: child.recv_post_calls,
            send_post_list_max: parent.send_post_list_max,
            recv_post_list_max: child.recv_post_list_max,
            send_cqe: parent.send_cqe,
            send_retired: parent.send_retired,
            recv_cqe: child.recv_cqe,
            cqe_error: completion::saturated(parent.cqe_error + child.cqe_error),
            poll_calls: completion::saturated(parent.poll_calls + child.poll_calls),
            empty_polls: completion::saturated(parent.empty_polls + child.empty_polls),
            send_jfc_poll_calls: completion::saturated(parent.send_jfc_poll_calls + child.send_jfc_poll_calls),
            send_jfc_empty_polls: completion::saturated(parent.send_jfc_empty_polls + child.send_jfc_empty_polls),
            recv_jfc_poll_calls: completion::saturated(parent.recv_jfc_poll_calls + child.recv_jfc_poll_calls),
            recv_jfc_empty_polls: completion::saturated(parent.recv_jfc_empty_polls + child.recv_jfc_empty_polls),
            yield_count: completion::saturated(parent.yield_count + child.yield_count),
            sleep_count: completion::saturated(parent.sleep_count + child.sleep_count),
            backoff_sleep_ns: completion::saturated(parent.backoff_sleep_ns + child.backoff_sleep_ns),
            jfc_rearm_count: completion::saturated(parent.jfc_rearm_count + child.jfc_rearm_count),
            event_wait_count: completion::saturated(parent.event_wait_count + child.event_wait_count),
            event_wakeup_count: completion::saturated(parent.event_wakeup_count + child.event_wakeup_count),
            event_timeout_count: completion::saturated(parent.event_timeout_count + child.event_timeout_count),
            spurious_wakeup_count: completion::saturated(parent.spurious_wakeup_count + child.spurious_wakeup_count),
            event_wait_ns: completion::saturated(parent.event_wait_ns + child.event_wait_ns),
            max_event_wait_ns: completion::larger(parent.max_event_wait_ns, child.max_event_wait_ns),
            max_empty_streak: completion::larger(parent.max_empty_streak, child.max_empty_streak),
            nonempty_polls: completion::saturated(parent.nonempty_polls + child.nonempty_polls),
            completion_batch_total: completion::saturated(parent.completion_batch_total + child.completion_batch_total),
            avg_poll_batch_milli: super::ratio(
                completion::saturated(parent.completion_batch_total + child.completion_batch_total),
                completion::saturated(parent.nonempty_polls + child.nonempty_polls),
                1_000,
            ),
            empty_poll_ratio_ppm: super::ratio(
                completion::saturated(parent.empty_polls + child.empty_polls),
                completion::saturated(parent.poll_calls + child.poll_calls),
                1_000_000,
            ),
            max_completion_poll_gap_ns: completion::larger(parent.max_completion_poll_gap_ns, child.max_completion_poll_gap_ns),
            max_outstanding_send: parent.max_outstanding_send,
            current_outstanding_send: 0,
            current_outstanding_recv: 0,
            configured_window: case.window as u64,
            configured_receive_credit: receive_credit as u64,
            slot_size: pool.slot_size as u64,
            effective_payload_size: case.chunk_size,
            tx_slot_count: pool.tx_slot_count as u64,
            rx_slot_count: pool.rx_slot_count as u64,
            total_registered_bytes: pool.total() as u64,
            bytes_sent,
            bytes_received,
        }
    }
}

/// What both sides of a run counted.
pub fn combined_stats(
    case: &BenchmarkCase,
    pool: &BufferPoolConfig,
    parent: CompletionStats,
    child: CompletionStats,
    bytes_sent: u64,
    bytes_received: u64,
    receive_credit: usize,
) -> (combined: Result<UrmaTransportStats>)
    ensures
        match combined {
            Ok(stats) => {
                &&& pool.layout_error() is None
                &&& stats == UrmaTransportStats::combined(
                    *case,
                    *pool,
                    parent,
                    child,
                    bytes_sent,
                    bytes_received,
                    receive_credit,
                )
            },
            Err(error) => pool.layout_error() == Some(error@),
        },
{
    let total: usize = match pool.total_len() {
        Ok(total) => total,
        Err(error) => {
            return Err(error);
        },
    };
    let poll_calls: u64 = parent.poll_calls.saturating_add(child.poll_calls);
    let empty_polls: u64 = parent.empty_polls.saturating_add(child.empty_polls);
    let nonempty_polls: u64 = parent.nonempty_polls.saturating_add(child.nonempty_polls);
    let completion_batch_total: u64 = parent.completion_batch_total.saturating_add(
        child.completion_batch_total,
    );
    Ok(
        UrmaTransportStats {
            send_post: parent.send_post,
            recv_post: child.recv_post,
            send_post_calls: parent.send_post_calls,
            recv_post_calls: child.recv_post_calls,
            send_post_list_max: parent.send_post_list_max,
            recv_post_list_max: child.recv_post_list_max,
            send_cqe: parent.send_cqe,
            send_retired: parent.send_retired,
            recv_cqe: child.recv_cqe,
            cqe_error: parent.cqe_error.saturating_add(child.cqe_error),
            poll_calls,
            empty_polls,
            send_jfc_poll_calls: parent.send_jfc_poll_calls.saturating_add(child.send_jfc_poll_calls),
            send_jfc_empty_polls: parent.send_jfc_empty_polls.saturating_add(child.send_jfc_empty_polls),
            recv_jfc_poll_calls: parent.recv_jfc_poll_calls.saturating_add(child.recv_jfc_poll_calls),
            recv_jfc_empty_polls: parent.recv_jfc_empty_polls.saturating_add(child.recv_jfc_empty_polls),
            yield_count: parent.yield_count.saturating_add(child.yield_count),
            sleep_count: parent.sleep_count.saturating_add(child.sleep_count),
            backoff_sleep_ns: parent.backoff_sleep_ns.saturating_add(child.backoff_sleep_ns),
            jfc_rearm_count: parent.jfc_rearm_count.saturating_add(child.jfc_rearm_count),
            event_wait_count: parent.event_wait_count.saturating_add(child.event_wait_count),
            event_wakeup_count: parent.event_wakeup_count.saturating_add(child.event_wakeup_count),
            event_timeout_count: parent.event_timeout_count.saturating_add(child.event_timeout_count),
            spurious_wakeup_count: parent.spurious_wakeup_count.saturating_add(child.spurious_wakeup_count),
            event_wait_ns: parent.event_wait_ns.saturating_add(child.event_wait_ns),
            max_event_wait_ns: max_u64(parent.max_event_wait_ns, child.max_event_wait_ns),
            max_empty_streak: max_u64(parent.max_empty_streak, child.max_empty_streak),
            nonempty_polls,
            completion_batch_total,
            avg_poll_batch_milli: scaled_ratio(completion_batch_total, nonempty_polls, 1_000),
            empty_poll_ratio_ppm: scaled_ratio(empty_polls, poll_calls, 1_000_000),
            max_completion_poll_gap_ns: max_u64(parent.max_completion_poll_gap_ns, child.max_completion_poll_gap_ns),
            max_outstanding_send: parent.max_outstanding_send,
            current_outstanding_send: 0,
            current_outstanding_recv: 0,
            configured_window: case.window as u64,
            configured_receive_credit: receive_credit as u64,
            slot_size: pool.slot_size as u64,
            effective_payload_size: case.chunk_size,
            tx_slot_count: pool.tx_slot_count as u64,
            rx_slot_count: pool.rx_slot_count as u64,
            total_registered_bytes: total as u64,
            bytes_sent,
            bytes_received,
        },
    )
}

/// The counters of a sender's credit, by name.
pub open spec fn credit_entries(credit: RemoteCreditView) -> Seq<(Seq<char>, u64)> {
    seq![
        ("remote_credit_initial"@, credit.initial as u64),
        ("remote_credit_returned"@, credit.returned as u64),
        ("remote_credit_consumed"@, credit.consumed as u64),
        ("remote_credit_updates"@, credit.updates as u64),
        ("remote_credit_wait_count"@, credit.waits as u64),
        ("remote_credit_pending"@, credit.available as u64),
        ("remote_credit_wait_ns"@, credit.wait_ns),
        ("remote_credit_max_wait_ns"@, credit.max_wait_ns),
    ]
}

fn list_credit(credit: &RemoteReceiveCredit) -> (entries: Vec<(String, u64)>)
    requires
        credit@.wf(),
    ensures
        entry_views(entries@) == credit_entries(credit@),
{
    let mut entries: Vec<(String, u64)> = Vec::new();
    assert(entry_views(entries@) =~= Seq::<(Seq<char>, u64)>::empty());
    add_entry(&mut entries, "remote_credit_initial", credit.initial() as u64);
    add_entry(&mut entries, "remote_credit_returned", credit.returned() as u64);
    add_entry(&mut entries, "remote_credit_consumed", credit.consumed() as u64);
    add_entry(&mut entries, "remote_credit_updates", credit.updates() as u64);
    add_entry(&mut entries, "remote_credit_wait_count", credit.waits() as u64);
    add_entry(&mut entries, "remote_credit_pending", credit.available() as u64);
    add_entry(&mut entries, "remote_credit_wait_ns", credit.wait_ns());
    add_entry(&mut entries, "remote_credit_max_wait_ns", credit.max_wait_ns());
    assert(entry_views(entries@) =~= credit_entries(credit@));
    entries
}

/// The name of a counter of the payload phase.
pub open spec fn payload_name(role: Seq<char>, suffix: Seq<char>) -> Seq<char> {
    "payload_"@ + role + "_"@ + suffix
}

fn payload_counter(role: &str, suffix: &str) -> (name: String)
    ensures
        name@ == payload_name(role@, suffix@),
{
    let mut name = "payload_".to_owned();
    name.append(role);
    name.append("_");
    name.append(suffix);
    name
}

impl PayloadPollStats {
    /// The counters of one side, by name.
    pub open spec fn entries(self, role: Seq<char>) -> Seq<(Seq<char>, u64)> {
        seq![
            (payload_name(role, "poll_calls"@), self.poll_calls),
            (payload_name(role, "empty_polls"@), self.empty_polls),
            (payload_name(role, "send_jfc_poll_calls"@), self.send_jfc_poll_calls),
            (payload_name(role, "send_jfc_empty_polls"@), self.send_jfc_empty_polls),
            (payload_name(role, "recv_jfc_poll_calls"@), self.recv_jfc_poll_calls),
            (payload_name(role, "recv_jfc_empty_polls"@), self.recv_jfc_empty_polls),
            (
                payload_name(role, "empty_poll_ratio_ppm"@),
                super::ratio(self.empty_polls, self.poll_calls, 1_000_000),
            ),
            (
                payload_name(role, "send_jfc_empty_ratio_ppm"@),
                super::ratio(self.send_jfc_empty_polls, self.send_jfc_poll_calls, 1_000_000),
            ),
            (
                payload_name(role, "recv_jfc_empty_ratio_ppm"@),
                super::ratio(self.recv_jfc_empty_polls, self.recv_jfc_poll_calls, 1_000_000),
            ),
        ]
    }

    fn list(self, role: &str) -> (entries: Vec<(String, u64)>)
        ensures
            entry_views(entries@) == self.entries(role@),
    {
        let mut entries: Vec<(String, u64)> = Vec::new();
        entries.push((payload_counter(role, "poll_calls"), self.poll_calls));
        entries.push((payload_counter(role, "empty_polls"), self.empty_polls));
        entries.push((payload_counter(role, "send_jfc_poll_calls"), self.send_jfc_poll_calls));
        entries.push((payload_counter(role, "send_jfc_empty_polls"), self.send_jfc_empty_polls));
        entries.push((payload_counter(role, "recv_jfc_poll_calls"), self.recv_jfc_poll_calls));
        entries.push((payload_counter(role, "recv_jfc_empty_polls"), self.recv_jfc_empty_polls));
        entries.push(
            (
                payload_counter(role, "empty_poll_ratio_ppm"),
                scaled_ratio(self.empty_polls, self.poll_calls, 1_000_000),
            ),
        );
        entries.push(
            (
                payload_counter(role, "send_jfc_empty_ratio_ppm"),
                scaled_ratio(self.send_jfc_empty_polls, self.send_jfc_poll_calls, 1_000_000),
            ),
        );
        entries.push(
            (
                payload_counter(role, "recv_jfc_empty_ratio_ppm"),
                scaled_ratio(self.recv_jfc_empty_polls, self.recv_jfc_poll_calls, 1_000_000),
            ),
        );
        assert(entry_views(entries@) =~= self.entries(role@));
        entries
    }

    /// Sets the counters of one side.
    pub fn insert(self, output: &mut TransportStats, role: &str)
        requires
            old(output).wf(),
        ensures
            final(output).wf(),
            final(output).map() == with_entries(old(output).map(), self.entries(role@)),
    {
        let entries = self.list(role);
        insert_entries(output, &entries);
    }
}

/// Sets the counters of a sender's credit.
pub fn insert_remote_credit_stats(output: &mut TransportStats, credit: &RemoteReceiveCredit)
    requires
        old(output).wf(),
        credit@.wf(),
    ensures
        final(output).wf(),
        final(output).map() == with_entries(old(output).map(), credit_entries(credit@)),
{
    let entries = list_credit(credit);
    insert_entries(output, &entries);
}

/// What a parent adds to the counters of a run.
#[derive(Clone, Copy, Debug, Eq, PartialEq, Structural)]
pub struct ParentReport {
    pub parent_cpu: CpuUsage,
    pub child_cpu: CpuUsage,
    pub stats: UrmaTransportStats,
    pub parent_poll: PayloadPollStats,
    pub child_poll: PayloadPollStats,
    pub fixed_tx: bool,
    /// Whether the source is a file.
    pub file: bool,
    /// Whether that file was mapped.
    pub file_mmap: bool,
    pub fill: TxFillStats,
    pub elapsed_ns: u64,
}

/// The counters of a parent's own report, by name.
pub open spec fn parent_entries(report: ParentReport) -> Seq<(Seq<char>, u64)> {
    seq![
        ("fixed_tx_profile"@, as_number(report.fixed_tx)),
        ("direct_file_tx"@, as_number(report.file)),
        ("file_mmap_tx"@, as_number(report.file_mmap)),
        ("file_pread_calls"@, report.fill.pread_calls),
        ("file_pread_bytes"@, report.fill.pread_bytes),
        ("file_pread_ns"@, report.fill.pread_ns),
        ("file_tx_batch_count"@, report.fill.file_batch_count),
        ("file_tx_batch_max_bytes"@, report.fill.file_batch_max_bytes),
        ("tx_fill_bytes"@, report.fill.fill_bytes),
        ("tx_fill_ns"@, report.fill.fill_ns),
        ("tx_fill_overlap_batches"@, report.fill.overlap_batches),
        ("tx_ring_windows"@, report.fill.ring_windows),
        ("parent_elapsed_ns"@, report.elapsed_ns),
    ]
}

/// The counters of a run, as its parent reports them.
pub open spec fn parent_counters(report: ParentReport, credit: RemoteCreditView) -> Map<
    Seq<char>,
    u64,
> {
    with_entries(
        with_entries(
            with_entries(
                with_entries(
                    with_entries(Map::empty(), report.stats.entries()),
                    credit_entries(credit),
                ),
                report.parent_poll.entries("parent"@),
            ),
            report.child_poll.entries("child"@),
        ),
        parent_entries(report),
    )
}

/// Completes a parent's result.
pub fn complete_parent(result: &mut BenchmarkResult, report: ParentReport, credit: &RemoteReceiveCredit)
    requires
        old(result).transport_stats.wf(),
        old(result).transport_stats.map() == Map::<Seq<char>, u64>::empty(),
        credit@.wf(),
    ensures
        final(result).transport_stats.wf(),
        final(result).transport_stats.map() == parent_counters(report, credit@),
        *final(result) == (BenchmarkResult {
            parent_cpu: Some(report.parent_cpu),
            child_cpu: Some(report.child_cpu),
            transport_stats: final(result).transport_stats,
            ..*old(result)
        }),
{
    result.parent_cpu = Some(report.parent_cpu);
    result.child_cpu = Some(report.child_cpu);
    report.stats.insert_all(&mut result.transport_stats);
    insert_remote_credit_stats(&mut result.transport_stats, credit);
    report.parent_poll.insert(&mut result.transport_stats, "parent");
    report.child_poll.insert(&mut result.transport_stats, "child");
    let mut entries: Vec<(String, u64)> = Vec::new();
    assert(entry_views(entries@) =~= Seq::<(Seq<char>, u64)>::empty());
    add_entry(&mut entries, "fixed_tx_profile", bit(report.fixed_tx));
    add_entry(&mut entries, "direct_file_tx", bit(report.file));
    add_entry(&mut entries, "file_mmap_tx", bit(report.file_mmap));
    add_entry(&mut entries, "file_pread_calls", report.fill.pread_calls);
    add_entry(&mut entries, "file_pread_bytes", report.fill.pread_bytes);
    add_entry(&mut entries, "file_pread_ns", report.fill.pread_ns);
    add_entry(&mut entries, "file_tx_batch_count", report.fill.file_batch_count);
    add_entry(&mut entries, "file_tx_batch_max_bytes", report.fill.file_batch_max_bytes);
    add_entry(&mut entries, "tx_fill_bytes", report.fill.fill_bytes);
    add_entry(&mut entries, "tx_fill_ns", report.fill.fill_ns);
    add_entry(&mut entries, "tx_fill_overlap_batches", report.fill.overlap_batches);
    add_entry(&mut entries, "tx_ring_windows", report.fill.ring_windows);
    add_entry(&mut entries, "parent_elapsed_ns", report.elapsed_ns);
    assert(entry_views(entries@) =~= parent_entries(report));
    insert_entries(&mut result.transport_stats, &entries);
}

/// What a child adds to the counters of a run.
#[derive(Clone, Copy, Debug, Eq, PartialEq, Structural)]
pub struct ChildReport {
    pub child_cpu: CpuUsage,
    pub stats: UrmaTransportStats,
    pub poll: PayloadPollStats,
    pub initial_credit: usize,
    pub windows: WindowPlan,
    pub slot_size: usize,
    pub workers: usize,
    pub transport_only: bool,
    pub verification_ns: u64,
    /// Whether the destination is a file.
    pub file: bool,
}

/// The counters of a child's own report, by name.
pub open spec fn child_entries(report: ChildReport, credit: CreditReturnView) -> Seq<
    (Seq<char>, u64),
> {
    seq![
        ("remote_credit_initial"@, report.initial_credit as u64),
        ("remote_credit_returned"@, credit.returned as u64),
        ("remote_credit_updates"@, credit.updates as u64),
        ("remote_credit_pending"@, credit.pending as u64),
        ("remote_credit_wait_count"@, 0),
        ("remote_credit_wait_ns"@, 0),
        ("remote_credit_max_wait_ns"@, 0),
        ("remote_credit_consumed"@, 0),
        ("registered_rx_window_count"@, report.windows.count as u64),
        ("registered_rx_window_chunks"@, report.windows.chunks as u64),
        ("registered_rx_window_bytes"@, (report.windows.chunks * report.slot_size) as u64),
        ("rx_bounce_copy"@, 0),
        ("parallel_crc_workers"@, report.workers as u64),
        ("transport_only"@, as_number(report.transport_only)),
        ("post_transport_verification_ns"@, report.verification_ns),
        ("direct_file_pwrite"@, as_number(report.file)),
    ]
}

/// The counters of a run, as its child reports them.
pub open spec fn child_counters(report: ChildReport, credit: CreditReturnView) -> Map<
    Seq<char>,
    u64,
> {
    with_entries(
        with_entries(
            with_entries(Map::empty(), report.stats.entries()),
            child_entries(report, credit),
        ),
        report.poll.entries("child"@),
    )
}

/// Completes a child's result.
pub fn complete_child(
    result: &mut BenchmarkResult,
    report: ChildReport,
    credit: &RemoteCreditReturn,
) -> (completed: Result<()>)
    requires
        old(result).transport_stats.wf(),
        old(result).transport_stats.map() == Map::<Seq<char>, u64>::empty(),
        credit@.wf(),
    ensures
        match completed {
            Ok(()) => {
                &&& report.windows.chunks * report.slot_size <= usize::MAX
                &&& final(result).transport_stats.wf()
                &&& final(result).transport_stats.map() == child_counters(report, credit@)
                &&& *final(result) == (BenchmarkResult {
                    child_cpu: Some(report.child_cpu),
                    transport_stats: final(result).transport_stats,
                    ..*old(result)
                })
            },
            Err(error) => {
                &&& report.windows.chunks * report.slot_size > usize::MAX
                &&& error@ == ErrorView::InvalidConfiguration(
                    "registered RX window byte size overflow"@,
                )
            },
        },
{
    let window_bytes: usize = match report.windows.chunks.checked_mul(report.slot_size) {
        Some(bytes) => bytes,
        None => {
            return Err(invalid("registered RX window byte size overflow"));
        },
    };
    result.child_cpu = Some(report.child_cpu);
    report.stats.insert_all(&mut result.transport_stats);
    let mut entries: Vec<(String, u64)> = Vec::new();
    assert(entry_views(entries@) =~= Seq::<(Seq<char>, u64)>::empty());
    add_entry(&mut entries, "remote_credit_initial", report.initial_credit as u64);
    add_entry(&mut entries, "remote_credit_returned", credit.returned() as u64);
    add_entry(&mut entries, "remote_credit_updates", credit.updates() as u64);
    add_entry(&mut entries, "remote_credit_pending", credit.pending() as u64);
    add_entry(&mut entries, "remote_credit_wait_count", 0);
    add_entry(&mut entries, "remote_credit_wait_ns", 0);
    add_entry(&mut entries, "remote_credit_max_wait_ns", 0);
    add_entry(&mut entries, "remote_credit_consumed", 0);
    add_entry(&mut entries, "registered_rx_window_count", report.windows.count as u64);
    add_entry(&mut entries, "registered_rx_window_chunks", report.windows.chunks as u64);
    add_entry(&mut entries, "registered_rx_window_bytes", window_bytes as u64);
    add_entry(&mut entries, "rx_bounce_copy", 0);
    add_entry(&mut entries, "parallel_crc_workers", report.workers as u64);
    add_entry(&mut entries, "transport_only", bit(report.transport_only));
    add_entry(&mut entries, "post_transport_verification_ns", report.verification_ns);
    add_entry(&mut entries, "direct_file_pwrite", bit(report.file));
    assert(entry_views(entries@) =~= child_entries(report, credit@));
    insert_entries(&mut result.transport_stats, &entries);
    report.poll.insert(&mut result.transport_stats, "child");
    Ok(())
}

/// Processor time in microseconds, from seconds and microseconds.
pub fn timeval_us(seconds: i64, micros: i64) -> (time: Result<u64>)
    ensures
        match time {
            Ok(time) => {
                &&& seconds >= 0 && micros >= 0
                &&& time == seconds * 1_000_000 + micros
            },
            Err(error) => if seconds < 0 {
                error@ == ErrorView::InvalidConfiguration("negative CPU seconds"@)
            } else if micros < 0 {
                error@ == ErrorView::InvalidConfiguration("negative CPU micros"@)
            } else {
                &&& seconds * 1_000_000 + micros > u64::MAX
                &&& error@ == ErrorView::InvalidConfiguration("process CPU time overflow"@)
            },
        },
{
    if seconds < 0 {
        return Err(invalid("negative CPU seconds"));
    }
    if micros < 0 {
        return Err(invalid("negative CPU micros"));
    }
    match (seconds as u64).checked_mul(1_000_000) {
        Some(time) => match time.checked_add(micros as u64) {
            Some(time) => Ok(time),
            None => Err(invalid("process CPU time overflow")),
        },
        None => Err(invalid("process CPU time overflow")),
    }
}

/// The processor time used since `start`.
pub fn cpu_elapsed_since(now: CpuUsage, start: CpuUsage) -> (elapsed: Result<CpuUsage>)
    ensures
        match elapsed {
            Ok(elapsed) => {
                &&& elapsed.user_us + start.user_us == now.user_us
                &&& elapsed.system_us + start.system_us == now.system_us
            },
            Err(error) => if now.user_us < start.user_us {
                error@ == ErrorView::InvalidConfiguration("process user CPU time moved backwards"@)
            } else {
                &&& now.system_us < start.system_us
                &&& error@ == ErrorView::InvalidConfiguration(
                    "process system CPU time moved backwards"@,
                )
            },
        },
{
    if now.user_us < start.user_us {
        return Err(invalid("process user CPU time moved backwards"));
    }
    if now.system_us < start.system_us {
        return Err(invalid("process system CPU time moved backwards"));
    }
    Ok(
        CpuUsage {
            user_us: now.user_us - start.user_us,
            system_us: now.system_us - start.system_us,
        },
    )
}

/// A sequence in JSON, `null` where there is none.
pub open spec fn sequence_json(sequence: Option<u64>) -> Seq<char> {
    match sequence {
        Some(sequence) => text::decimal(sequence as nat),
        None => "null"@,
    }
}

/// A sequence in JSON.
pub fn optional_sequence_json(sequence: Option<u64>) -> (json: String)
    ensures
        json@ == sequence_json(sequence),
{
    match sequence {
        Some(sequence) => decimal_string(sequence),
        None => "null".to_owned(),
    }
}

/// An outstanding work request in JSON.
pub open spec fn pending_fields(item: PendingWrSnapshot) -> Seq<(Seq<char>, Seq<char>)> {
    seq![
        ("sequence"@, sequence_json(item.sequence)),
        ("slot_id"@, text::decimal(item.slot.position())),
        ("slot_state"@, json::string(item.state.name())),
    ]
}

/// Outstanding work requests in JSON, one after the other.
pub open spec fn pending_list(pending: Seq<PendingWrSnapshot>) -> Seq<char>
    decreases pending.len(),
{
    if pending.len() == 0 {
        Seq::empty()
    } else if pending.len() == 1 {
        json::object(pending_fields(pending.last()))
    } else {
        pending_list(pending.drop_last()) + ","@ + json::object(pending_fields(pending.last()))
    }
}

/// Outstanding work requests in JSON.
pub fn pending_wr_json(pending: &Vec<PendingWrSnapshot>) -> (json: String)
    ensures
        json@ == "["@ + pending_list(pending@) + "]"@,
{
    let mut list = "[".to_owned();
    let mut index: usize = 0;
    assert("["@ + pending_list(pending@.take(0)) =~= "["@);
    while index < pending.len()
        invariant
            index <= pending@.len(),
            list@ == "["@ + pending_list(pending@.take(index as int)),
        decreases pending@.len() - index,
    {
        let item = pending[index];
        proof {
            assert(pending@.take(index + 1).drop_last() =~= pending@.take(index as int));
            assert(pending@.take(index + 1).last() == item);
        }
        if index > 0 {
            list.append(",");
        }
        let mut object = JsonObject::new();
        object.raw("sequence", optional_sequence_json(item.sequence).as_str());
        object.number("slot_id", item.slot.index() as u64);
        object.text("slot_state", item.state.label());
        assert(object@ =~= pending_fields(item));
        list.append(object.finish().as_str());
        index += 1;
        assert(list@ =~= "["@ + pending_list(pending@.take(index as int)));
    }
    assert(pending@.take(pending@.len() as int) =~= pending@);
    list.append("]");
    list
}

/// A parent's state where it timed out.
pub open spec fn parent_timeout_fields(
    operation: Seq<char>,
    window: nat,
    current: nat,
    outstanding_send: nat,
    stats: CompletionStats,
    slots: SlotStateSnapshot,
    diagnostic: CompletionDiagnostic,
) -> Seq<(Seq<char>, Seq<char>)> {
    seq![
        ("event"@, json::string("urma_benchmark_timeout"@)),
        ("role"@, json::string("parent"@)),
        ("operation"@, json::string(operation)),
        ("configured_window"@, text::decimal(window)),
        ("current_outstanding_send"@, text::decimal(outstanding_send)),
        ("pipeline_tracker_current"@, text::decimal(current)),
        ("max_outstanding_send"@, text::decimal(stats.max_outstanding_send as nat)),
        ("send_post"@, text::decimal(stats.send_post as nat)),
        ("send_cqe"@, text::decimal(stats.send_cqe as nat)),
        ("recv_post"@, text::decimal(stats.recv_post as nat)),
        ("recv_cqe"@, text::decimal(stats.recv_cqe as nat)),
        ("cqe_error"@, text::decimal(stats.cqe_error as nat)),
        ("poll_calls"@, text::decimal(stats.poll_calls as nat)),
        ("empty_polls"@, text::decimal(stats.empty_polls as nat)),
        ("connection_outstanding_send"@, text::decimal(outstanding_send)),
        ("last_completed_sequence"@, sequence_json(diagnostic.last_completed_sequence)),
        ("pending_send"@, "["@ + pending_list(diagnostic.pending@) + "]"@),
        (
            "tx_slots"@,
            json::object(
                seq![
                    ("free"@, text::decimal(slots.free as nat)),
                    ("allocated"@, text::decimal(slots.allocated as nat)),
                    ("send_posted"@, text::decimal(slots.send_posted as nat)),
                    ("send_completed"@, text::decimal(slots.send_completed as nat)),
                    ("other"@, text::decimal(slots.other as nat)),
                ],
            ),
        ),
    ]
}

/// A parent's state where it timed out, as one line of JSON.
pub fn parent_timeout_json(
    operation: &str,
    pipeline: &PipelineTracker,
    outstanding_send: usize,
    stats: CompletionStats,
    slots: SlotStateSnapshot,
    diagnostic: &CompletionDiagnostic,
) -> (line: String)
    ensures
        line@ == json::object(
            parent_timeout_fields(
                operation@,
                pipeline@.window,
                pipeline@.current,
                outstanding_send as nat,
                stats,
                slots,
                *diagnostic,
            ),
        ),
{
    let mut tx = JsonObject::new();
    tx.number("free", slots.free as u64);
    tx.number("allocated", slots.allocated as u64);
    tx.number("send_posted", slots.send_posted as u64);
    tx.number("send_completed", slots.send_completed as u64);
    tx.number("other", slots.other as u64);
    assert(tx@ =~= seq![
        ("free"@, text::decimal(slots.free as nat)),
        ("allocated"@, text::decimal(slots.allocated as nat)),
        ("send_posted"@, text::decimal(slots.send_posted as nat)),
        ("send_completed"@, text::decimal(slots.send_completed as nat)),
        ("other"@, text::decimal(slots.other as nat)),
    ]);
    let mut object = JsonObject::new();
    object.text("event", "urma_benchmark_timeout");
    object.text("role", "parent");
    object.text("operation", operation);
    object.number("configured_window", pipeline.configured_window() as u64);
    object.number("current_outstanding_send", outstanding_send as u64);
    object.number("pipeline_tracker_current", pipeline.current() as u64);
    object.number("max_outstanding_send", stats.max_outstanding_send);
    object.number("send_post", stats.send_post);
    object.number("send_cqe", stats.send_cqe);
    object.number("recv_post", stats.recv_post);
    object.number("recv_cqe", stats.recv_cqe);
    object.number("cqe_error", stats.cqe_error);
    object.number("poll_calls", stats.poll_calls);
    object.number("empty_polls", stats.empty_polls);
    object.number("connection_outstanding_send", outstanding_send as u64);
    object.raw(
        "last_completed_sequence",
        optional_sequence_json(diagnostic.last_completed_sequence).as_str(),
    );
    object.raw("pending_send", pending_wr_json(&diagnostic.pending).as_str());
    object.raw("tx_slots", tx.finish().as_str());
    assert(object@ =~= parent_timeout_fields(
        operation@,
        pipeline@.window,
        pipeline@.current,
        outstanding_send as nat,
        stats,
        slots,
        *diagnostic,
    ));
    object.finish()
}

/// A child's state where it timed out.
pub open spec fn child_timeout_fields(
    credit: super::CreditView,
    receive_credit: nat,
    outstanding_recv: nat,
    stats: CompletionStats,
    slots: SlotStateSnapshot,
    diagnostic: CompletionDiagnostic,
) -> Seq<(Seq<char>, Seq<char>)> {
    seq![
        ("event"@, json::string("urma_benchmark_timeout"@)),
        ("role"@, json::string("child"@)),
        ("operation"@, json::string("benchmark_receive"@)),
        ("configured_receive_credit"@, text::decimal(credit.configured)),
        ("current_receive_credit"@, text::decimal(receive_credit)),
        ("benchmark_credit_current"@, text::decimal(credit.current)),
        ("benchmark_credit_remaining_messages"@, text::decimal(credit.remaining)),
        ("recv_post"@, text::decimal(stats.recv_post as nat)),
        ("recv_cqe"@, text::decimal(stats.recv_cqe as nat)),
        ("send_post"@, text::decimal(stats.send_post as nat)),
        ("send_cqe"@, text::decimal(stats.send_cqe as nat)),
        ("cqe_error"@, text::decimal(stats.cqe_error as nat)),
        ("poll_calls"@, text::decimal(stats.poll_calls as nat)),
        ("empty_polls"@, text::decimal(stats.empty_polls as nat)),
        ("connection_outstanding_recv"@, text::decimal(outstanding_recv)),
        ("last_completed_sequence"@, sequence_json(diagnostic.last_completed_sequence)),
        ("pending_recv"@, "["@ + pending_list(diagnostic.pending@) + "]"@),
        (
            "rx_slots"@,
            json::object(
                seq![
                    ("free"@, text::decimal(slots.free as nat)),
                    ("allocated"@, text::decimal(slots.allocated as nat)),
                    ("posted_recv"@, text::decimal(slots.posted_recv as nat)),
                    ("recv_completed"@, text::decimal(slots.recv_completed as nat)),
                    ("other"@, text::decimal(slots.other as nat)),
                ],
            ),
        ),
    ]
}

/// A child's state where it timed out, as one line of JSON.
pub fn child_timeout_json(
    credit: &ReceiveCreditController,
    receive_credit: usize,
    outstanding_recv: usize,
    stats: CompletionStats,
    slots: SlotStateSnapshot,
    diagnostic: &CompletionDiagnostic,
) -> (line: String)
    ensures
        line@ == json::object(
            child_timeout_fields(
                credit@,
                receive_credit as nat,
                outstanding_recv as nat,
                stats,
                slots,
                *diagnostic,
            ),
        ),
{
    let mut rx = JsonObject::new();
    rx.number("free", slots.free as u64);
    rx.number("allocated", slots.allocated as u64);
    rx.number("posted_recv", slots.posted_recv as u64);
    rx.number("recv_completed", slots.recv_completed as u64);
    rx.number("other", slots.other as u64);
    assert(rx@ =~= seq![
        ("free"@, text::decimal(slots.free as nat)),
        ("allocated"@, text::decimal(slots.allocated as nat)),
        ("posted_recv"@, text::decimal(slots.posted_recv as nat)),
        ("recv_completed"@, text::decimal(slots.recv_completed as nat)),
        ("other"@, text::decimal(slots.other as nat)),
    ]);
    let mut object = JsonObject::new();
    object.text("event", "urma_benchmark_timeout");
    object.text("role", "child");
    object.text("operation", "benchmark_receive");
    object.number("configured_receive_credit", credit.configured_credit() as u64);
    object.number("current_receive_credit", receive_credit as u64);
    object.number("benchmark_credit_current", credit.current_credit() as u64);
    object.number("benchmark_credit_remaining_messages", credit.remaining_messages() as u64);
    object.number("recv_post", stats.recv_post);
    object.number("recv_cqe", stats.recv_cqe);
    object.number("send_post", stats.send_post);
    object.number("send_cqe", stats.send_cqe);
    object.number("cqe_error", stats.cqe_error);
    object.number("poll_calls", stats.poll_calls);
    object.number("empty_polls", stats.empty_polls);
    object.number("connection_outstanding_recv", outstanding_recv as u64);
    object.raw(
        "last_completed_sequence",
        optional_sequence_json(diagnostic.last_completed_sequence).as_str(),
    );
    object.raw("pending_recv", pending_wr_json(&diagnostic.pending).as_str());
    object.raw("rx_slots", rx.finish().as_str());
    assert(object@ =~= child_timeout_fields(
        credit@,
        receive_credit as nat,
        outstanding_recv as nat,
        stats,
        slots,
        *diagnostic,
    ));
    object.finish()
}

} // verus!
