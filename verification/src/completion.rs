//! Completion accounting: which work requests are outstanding, and what each
//! completion record retires.

use vstd::prelude::*;

use crate::buffer::{SlotId, SlotState};
use crate::error::{Error, ErrorView, Result};

pub mod laws;
pub mod model;
pub mod poller;

pub use model::{EventView, OutstandingWr, PlaneView, PollerView};
pub use poller::CompletionPoller;

verus! {

/// Counters of the data plane.
#[derive(Clone, Copy, Debug, Eq, PartialEq, Structural)]
pub struct CompletionStats {
    pub send_post: u64,
    pub recv_post: u64,
    pub send_post_calls: u64,
    pub recv_post_calls: u64,
    pub send_post_list_max: u64,
    pub recv_post_list_max: u64,
    /// Hardware SEND completion records consumed.
    pub send_cqe: u64,
    /// Logical SEND work requests retired by those ordered completion frontiers.
    pub send_retired: u64,
    pub recv_cqe: u64,
    pub cqe_error: u64,
    pub poll_calls: u64,
    pub empty_polls: u64,
    pub send_jfc_poll_calls: u64,
    pub send_jfc_empty_polls: u64,
    pub recv_jfc_poll_calls: u64,
    pub recv_jfc_empty_polls: u64,
    pub yield_count: u64,
    pub sleep_count: u64,
    pub backoff_sleep_ns: u64,
    pub jfc_rearm_count: u64,
    pub event_wait_count: u64,
    pub event_wakeup_count: u64,
    pub event_timeout_count: u64,
    pub spurious_wakeup_count: u64,
    pub event_wait_ns: u64,
    pub max_event_wait_ns: u64,
    pub max_empty_streak: u64,
    pub nonempty_polls: u64,
    pub completion_batch_total: u64,
    pub max_completion_poll_gap_ns: u64,
    pub max_outstanding_send: u64,
}

impl CompletionStats {
    /// Counters that have counted nothing.
    pub open spec fn zero() -> Self {
        CompletionStats {
            send_post: 0,
            recv_post: 0,
            send_post_calls: 0,
            recv_post_calls: 0,
            send_post_list_max: 0,
            recv_post_list_max: 0,
            send_cqe: 0,
            send_retired: 0,
            recv_cqe: 0,
            cqe_error: 0,
            poll_calls: 0,
            empty_polls: 0,
            send_jfc_poll_calls: 0,
            send_jfc_empty_polls: 0,
            recv_jfc_poll_calls: 0,
            recv_jfc_empty_polls: 0,
            yield_count: 0,
            sleep_count: 0,
            backoff_sleep_ns: 0,
            jfc_rearm_count: 0,
            event_wait_count: 0,
            event_wakeup_count: 0,
            event_timeout_count: 0,
            spurious_wakeup_count: 0,
            event_wait_ns: 0,
            max_event_wait_ns: 0,
            max_empty_streak: 0,
            nonempty_polls: 0,
            completion_batch_total: 0,
            max_completion_poll_gap_ns: 0,
            max_outstanding_send: 0,
        }
    }
}

impl Default for CompletionStats {
    fn default() -> (stats: Self)
        ensures
            stats == CompletionStats::zero(),
    {
        CompletionStats {
            send_post: 0,
            recv_post: 0,
            send_post_calls: 0,
            recv_post_calls: 0,
            send_post_list_max: 0,
            recv_post_list_max: 0,
            send_cqe: 0,
            send_retired: 0,
            recv_cqe: 0,
            cqe_error: 0,
            poll_calls: 0,
            empty_polls: 0,
            send_jfc_poll_calls: 0,
            send_jfc_empty_polls: 0,
            recv_jfc_poll_calls: 0,
            recv_jfc_empty_polls: 0,
            yield_count: 0,
            sleep_count: 0,
            backoff_sleep_ns: 0,
            jfc_rearm_count: 0,
            event_wait_count: 0,
            event_wakeup_count: 0,
            event_timeout_count: 0,
            spurious_wakeup_count: 0,
            event_wait_ns: 0,
            max_event_wait_ns: 0,
            max_empty_streak: 0,
            nonempty_polls: 0,
            completion_batch_total: 0,
            max_completion_poll_gap_ns: 0,
            max_outstanding_send: 0,
        }
    }
}

/// `value` where it fits a counter, else the largest counter value.
pub open spec fn saturated(value: int) -> u64 {
    if value > u64::MAX {
        u64::MAX
    } else {
        value as u64
    }
}

/// The larger of two counters.
pub open spec fn larger(left: u64, right: u64) -> u64 {
    if left >= right {
        left
    } else {
        right
    }
}

/// The larger of two counters.
pub fn max_u64(left: u64, right: u64) -> (max: u64)
    ensures
        max == larger(left, right),
{
    if left >= right {
        left
    } else {
        right
    }
}

/// How many empty polls in a row precede a wait for an event.
pub const HOT_POLL_LIMIT: u64 = u64::MAX;

/// How long one wait for an event lasts at most, in milliseconds.
pub const EVENT_WAIT_TIMEOUT_MS: i32 = 10;

/// Whether a run of empty polls is long enough to wait for an event.
pub fn should_wait_for_event(streak: u64) -> (wait: bool)
    ensures
        wait == (streak > HOT_POLL_LIMIT),
{
    streak > HOT_POLL_LIMIT
}

/// A duration in nanoseconds at the width of a counter.
pub fn duration_ns_saturating(nanoseconds: u128) -> (ns: u64)
    ensures
        ns == saturated(nanoseconds as int),
{
    if nanoseconds > u64::MAX as u128 {
        u64::MAX
    } else {
        nanoseconds as u64
    }
}

/// A completed work request.
#[derive(Clone, Debug, Eq, PartialEq)]
pub enum CompletionEvent {
    SendCompleted { slot: SlotId },
    RecvCompleted { slot: SlotId, bytes: Vec<u8> },
}

impl View for CompletionEvent {
    type V = EventView;

    open spec fn view(&self) -> EventView {
        match self {
            CompletionEvent::SendCompleted { slot } => EventView::SendCompleted { slot: *slot },
            CompletionEvent::RecvCompleted { slot, bytes } => EventView::RecvCompleted {
                slot: *slot,
                bytes: bytes@,
            },
        }
    }
}

/// A completed receive whose bytes stay in its slot.
#[derive(Clone, Copy, Debug, Eq, PartialEq, Structural)]
pub struct CompletedRecv {
    pub slot: SlotId,
    pub sequence: Option<u64>,
    pub length: u32,
}

/// An outstanding work request, for diagnosis.
#[derive(Clone, Copy, Debug, Eq, PartialEq, Structural)]
pub struct PendingWrSnapshot {
    pub sequence: Option<u64>,
    pub slot: SlotId,
    pub state: SlotState,
}

/// The outstanding work requests of one direction, and the last that completed.
#[derive(Clone, Debug, Eq, PartialEq)]
pub struct CompletionDiagnostic {
    pub pending: Vec<PendingWrSnapshot>,
    pub last_completed_sequence: Option<u64>,
}

impl Default for CompletionDiagnostic {
    fn default() -> (diagnostic: Self)
        ensures
            diagnostic.pending@ == Seq::<PendingWrSnapshot>::empty(),
            diagnostic.last_completed_sequence is None,
    {
        CompletionDiagnostic { pending: Vec::new(), last_completed_sequence: None }
    }
}

/// Fails an operation once the time has reached its deadline. Both are nanoseconds on one clock.
pub fn check_deadline(now: u128, deadline: u128, operation: &'static str) -> (checked: Result<()>)
    ensures
        match checked {
            Ok(()) => now < deadline,
            Err(error) => {
                &&& now >= deadline
                &&& error@ == (ErrorView::Timeout { operation: operation@ })
            },
        },
{
    if now >= deadline {
        Err(Error::Timeout { operation })
    } else {
        Ok(())
    }
}

/// The time that lies `timeout` after `now`, in nanoseconds.
pub fn deadline_after(now: u128, timeout: u128) -> (deadline: u128)
    requires
        now + timeout <= u128::MAX,
    ensures
        deadline == now + timeout,
{
    now + timeout
}

/// The error for a completion that failed.
pub open spec fn completion_failure(status: i32, opcode: u32, user_ctx: u64) -> ErrorView {
    ErrorView::Completion {
        status,
        opcode,
        user_ctx,
        sequence: None,
        post_call: None,
        post_index: None,
        post_count: None,
    }
}

/// The error for a completion that failed.
pub(crate) fn completion_error(status: i32, opcode: u32, user_ctx: u64) -> (error: Error)
    ensures
        error@ == completion_failure(status, opcode, user_ctx),
{
    Error::Completion {
        status,
        opcode,
        user_ctx,
        sequence: None,
        post_call: None,
        post_index: None,
        post_count: None,
    }
}

/// Refuses every completion status but success.
pub fn validate_completion_status(status: i32, opcode: u32, user_ctx: u64) -> (valid: Result<()>)
    ensures
        match valid {
            Ok(()) => status == 0,
            Err(error) => status != 0 && error@ == completion_failure(status, opcode, user_ctx),
        },
{
    if status == 0 {
        Ok(())
    } else {
        Err(completion_error(status, opcode, user_ctx))
    }
}

} // verus!
