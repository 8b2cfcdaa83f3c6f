//! The child's side of a run: what each completed receive means, when a window of them is handed on,
//! and how many receives are posted again.

use vstd::prelude::*;

use super::profile::bounded_repost_count;
use super::receive::{UrmaReceiveState, UrmaReceiveView};
use super::{CreditView, ReceiveCreditController};
use crate::benchmark;
use crate::benchmark::{BenchmarkCase, IntegrityResult};
use crate::completion::CompletedRecv;
use crate::error;
use crate::error::{invalid, protocol, push_optional, Error, ErrorView, Result};
use crate::message::{
    DigestAlgorithm, IntegrationBodyView, IntegrationMessageBodyV3, IntegrationMessageV3,
    IntegrationView,
};
use crate::text;
use crate::text::{parse_unsigned, push_decimal};

verus! {

/// The checksum that metadata announce, or why they are refused.
pub open spec fn crc32_announced(message: IntegrationView) -> core::result::Result<u32, ErrorView> {
    match message.body {
        IntegrationBodyView::Metadata { digest, .. } => if digest.algorithm
            == DigestAlgorithm::Crc32 {
            match text::unsigned_value(digest.value) {
                Some(value) => if value <= u32::MAX {
                    Ok(value as u32)
                } else {
                    Err(ErrorView::Protocol("invalid Metadata CRC32"@))
                },
                None => Err(ErrorView::Protocol("invalid Metadata CRC32"@)),
            }
        } else {
            Err(ErrorView::Protocol("expected URMA benchmark Metadata"@))
        },
        _ => Err(ErrorView::Protocol("expected URMA benchmark Metadata"@)),
    }
}

/// The checksum that metadata announce.
pub fn announced_crc32(message: &IntegrationMessageV3) -> (announced: Result<u32>)
    ensures
        match announced {
            Ok(crc32) => crc32_announced(message@) == Ok::<u32, ErrorView>(crc32),
            Err(error) => crc32_announced(message@) == Err::<u32, ErrorView>(error@),
        },
{
    match &message.body {
        IntegrationMessageBodyV3::Metadata { offset: _, total_length: _, digest } => {
            match digest.algorithm {
                DigestAlgorithm::Crc32 => match parse_unsigned(digest.value.as_str(), 0xffff_ffff) {
                    Some(value) => Ok(value as u32),
                    None => Err(protocol("invalid Metadata CRC32")),
                },
                _ => Err(protocol("expected URMA benchmark Metadata")),
            }
        },
        _ => Err(protocol("expected URMA benchmark Metadata")),
    }
}

/// The number of data messages that a child waits for.
pub fn expected_data_messages(case: &BenchmarkCase) -> (count: Result<u32>)
    ensures
        ({
            let chunks = benchmark::chunks_of(case.transfer_bytes as nat, case.chunk_size as nat);
            match count {
                Ok(count) => case.chunk_size > 0 && count == chunks,
                Err(error) => if case.chunk_size == 0 {
                    error@ == ErrorView::InvalidConfiguration("chunk_size must be non-zero"@)
                } else {
                    &&& chunks > u32::MAX
                    &&& error@ == ErrorView::Protocol("URMA Data sequence count exceeds u32"@)
                },
            }
        }),
{
    match case.chunk_count() {
        Ok(chunks) => {
            if chunks > u32::MAX as u64 {
                return Err(protocol("URMA Data sequence count exceeds u32"));
            }
            Ok(chunks as u32)
        },
        Err(error) => Err(error),
    }
}

/// Which receives are to be posted: the sequence of the first, and how many. A slot that is leased to
/// the sink is no longer posted, but it is not reusable until the sink returns the whole window, so no
/// more are posted than there are free slots.
pub fn plan_replenish(credit: &ReceiveCreditController, free_rx_slots: usize) -> (plan: (
    u64,
    usize,
))
    requires
        credit@.wf(),
    ensures
        plan.0 == credit@.posts,
        plan.1 == if credit@.needed() <= free_rx_slots {
            credit@.needed()
        } else {
            free_rx_slots as nat
        },
{
    (credit.next_post_sequence(), bounded_repost_count(credit.posts_needed(), free_rx_slots))
}

/// Counts receives that were posted.
pub fn note_replenished(credit: &mut ReceiveCreditController, posted: usize) -> (noted: Result<()>)
    requires
        old(credit)@.wf(),
        posted <= old(credit)@.needed(),
    ensures
        final(credit)@.wf(),
        ({
            let room = u64::MAX - old(credit)@.posts;
            let counted = if posted <= room {
                posted as nat
            } else {
                room as nat
            };
            &&& final(credit)@ == (CreditView {
                current: old(credit)@.current + counted,
                posts: old(credit)@.posts + counted,
                ..old(credit)@
            })
            &&& match noted {
                Ok(()) => posted <= room,
                Err(error) => {
                    &&& posted > room
                    &&& error@ == ErrorView::Protocol("receive post sequence overflow"@)
                },
            }
        }),
{
    let ghost start = credit@;
    let mut index: usize = 0;
    while index < posted
        invariant
            start == old(credit)@,
            start.wf(),
            credit@.wf(),
            index <= posted <= start.needed(),
            start.posts + index <= u64::MAX,
            credit@ == (CreditView {
                current: start.current + index as nat,
                posts: start.posts + index as nat,
                ..start
            }),
        decreases posted - index,
    {
        match credit.posted() {
            Ok(()) => {},
            Err(error) => {
                return Err(error);
            },
        }
        index += 1;
    }
    Ok(())
}

/// Checks that the connection has posted as many receives as were counted.
pub fn check_posted(receive_credit: usize, credit: &ReceiveCreditController) -> (checked: Result<()>)
    ensures
        match checked {
            Ok(()) => receive_credit == credit@.current,
            Err(error) => {
                &&& receive_credit != credit@.current
                &&& error@ == ErrorView::Protocol("RX credit accounting mismatch"@)
            },
        },
{
    if receive_credit != credit.current_credit() {
        return Err(protocol("RX credit accounting mismatch"));
    }
    Ok(())
}

/// What a completed receive leads to.
pub enum ReceiveStep {
    /// It waits for the rest of its window.
    Kept,
    /// A window is full: these receives are leased and handed to the sink.
    Window(Vec<CompletedRecv>),
    /// It is the end: it is leased, decoded and given back.
    End,
}

/// A [`ReceiveStep`] with its window as a sequence.
pub enum StepView {
    Kept,
    Window(Seq<CompletedRecv>),
    End,
}

impl View for ReceiveStep {
    type V = StepView;

    open spec fn view(&self) -> StepView {
        match self {
            ReceiveStep::Kept => StepView::Kept,
            ReceiveStep::Window(window) => StepView::Window(window@),
            ReceiveStep::End => StepView::End,
        }
    }
}

/// A run as its child sees it.
#[verifier::ext_equal]
pub struct RunView {
    /// The data messages that belong to the run.
    pub expected: u32,
    /// The data messages received.
    pub received: u32,
    /// The bytes received.
    pub bytes: u64,
    /// How many messages make a window.
    pub window: nat,
    /// The messages of the window that is not full yet.
    pub pending: Seq<CompletedRecv>,
    /// Whether the end has arrived.
    pub ended: bool,
    pub credit: CreditView,
    pub receiver: UrmaReceiveView,
}

/// The bytes of some messages.
pub open spec fn bytes_in(messages: Seq<CompletedRecv>) -> int
    decreases messages.len(),
{
    if messages.len() == 0 {
        0
    } else {
        bytes_in(messages.drop_last()) + messages.last().length
    }
}

impl RunView {
    /// The messages received are those that the receiver counted, and those of an open window are
    /// among them.
    pub open spec fn wf(self) -> bool {
        &&& self.credit.wf()
        &&& self.receiver.wf()
        &&& self.received <= self.expected
        &&& self.bytes == self.receiver.actual_bytes
        &&& self.received == self.receiver.next_sequence
        &&& self.pending.len() < self.window
        &&& 0 <= bytes_in(self.pending) <= self.bytes
        &&& self.received == self.expected ==> self.pending.len() == 0
    }

    /// The run after a receive was counted.
    pub open spec fn counted(self) -> Self {
        RunView {
            credit: CreditView {
                current: (self.credit.current - 1) as nat,
                remaining: (self.credit.remaining - 1) as nat,
                ..self.credit
            },
            ..self
        }
    }

    /// Why a data message is refused, if it is refused.
    pub open spec fn data_error(self, message: CompletedRecv) -> Option<ErrorView> {
        if message.sequence != Some(self.received as u64) {
            Some(
                ErrorView::Protocol(
                    "RX completion sequence "@ + error::optional_number(
                        error::optional_u64(message.sequence),
                    ) + ", expected "@ + text::decimal(self.received as nat),
                ),
            )
        } else if self.bytes + message.length > u64::MAX {
            Some(ErrorView::Protocol("received byte count overflow"@))
        } else {
            self.receiver.data_error(self.received, message.length as nat)
        }
    }

    /// The run after a completed receive, and what it leads to.
    pub open spec fn after(self, message: CompletedRecv) -> (
        Self,
        core::result::Result<StepView, ErrorView>,
    ) {
        let counted = self.counted();
        if self.credit.current == 0 {
            (self, Err(ErrorView::Protocol("receive completion without posted credit"@)))
        } else if self.received < self.expected {
            if self.data_error(message) is Some {
                (counted, Err(self.data_error(message)->0))
            } else {
                let pending = self.pending.push(message);
                let taken = RunView {
                    received: (self.received + 1) as u32,
                    bytes: (self.bytes + message.length) as u64,
                    receiver: self.receiver.after_data(message.length as nat).0,
                    ..counted
                };
                if pending.len() == self.window || self.received + 1 == self.expected {
                    (RunView { pending: Seq::empty(), ..taken }, Ok(StepView::Window(pending)))
                } else {
                    (RunView { pending, ..taken }, Ok(StepView::Kept))
                }
            }
        } else if self.ended {
            (counted, Err(ErrorView::Protocol("received payload after URMA benchmark End"@)))
        } else {
            (RunView { ended: true, ..counted }, Ok(StepView::End))
        }
    }
}

/// A run as its child sees it.
pub struct ChildRun {
    expected: u32,
    received: u32,
    bytes: u64,
    window: usize,
    pending: Vec<CompletedRecv>,
    ended: bool,
    credit: ReceiveCreditController,
    receiver: UrmaReceiveState,
}

impl View for ChildRun {
    type V = RunView;

    closed spec fn view(&self) -> RunView {
        RunView {
            expected: self.expected,
            received: self.received,
            bytes: self.bytes,
            window: self.window as nat,
            pending: self.pending@,
            ended: self.ended,
            credit: self.credit@,
            receiver: self.receiver@,
        }
    }
}

impl ChildRun {
    /// A run of which nothing was received but the metadata.
    pub fn new(
        expected: u32,
        window: usize,
        credit: ReceiveCreditController,
        receiver: UrmaReceiveState,
    ) -> (run: Self)
        requires
            window > 0,
            credit@.wf(),
            receiver@.wf(),
            receiver@.actual_bytes == 0,
            receiver@.next_sequence == 0,
        ensures
            run@.wf(),
            run@ == (RunView {
                expected,
                received: 0,
                bytes: 0,
                window: window as nat,
                pending: Seq::empty(),
                ended: false,
                credit: credit@,
                receiver: receiver@,
            }),
    {
        let run = ChildRun {
            expected,
            received: 0,
            bytes: 0,
            window,
            pending: Vec::new(),
            ended: false,
            credit,
            receiver,
        };
        assert(run@.pending =~= Seq::empty());
        run
    }

    /// Takes in a completed receive.
    pub fn take(&mut self, message: CompletedRecv) -> (taken: Result<ReceiveStep>)
        requires
            old(self)@.wf(),
        ensures
            final(self)@ == old(self)@.after(message).0,
            match taken {
                Ok(step) => {
                    &&& final(self)@.wf()
                    &&& old(self)@.after(message).1 == Ok::<StepView, ErrorView>(step@)
                },
                Err(error) => old(self)@.after(message).1 == Err::<StepView, ErrorView>(error@),
            },
    {
        match self.credit.completed() {
            Ok(()) => {},
            Err(error) => {
                return Err(error);
            },
        }
        if self.received < self.expected {
            let expected_sequence: u64 = self.received as u64;
            let in_order = match message.sequence {
                Some(sequence) => sequence == expected_sequence,
                None => false,
            };
            if !in_order {
                let mut detail = "RX completion sequence ".to_owned();
                push_optional(&mut detail, message.sequence);
                detail.append(", expected ");
                push_decimal(&mut detail, expected_sequence);
                return Err(Error::Protocol(detail));
            }
            let bytes: u64 = match self.bytes.checked_add(message.length as u64) {
                Some(bytes) => bytes,
                None => {
                    return Err(protocol("received byte count overflow"));
                },
            };
            match self.receiver.accept_data_length(self.received, message.length as usize) {
                Ok(()) => {},
                Err(error) => {
                    return Err(error);
                },
            }
            self.bytes = bytes;
            self.pending.push(message);
            proof {
                assert(self.pending@.drop_last() =~= old(self)@.pending);
            }
            self.received = self.received + 1;
            if self.pending.len() == self.window || self.received == self.expected {
                let mut window: Vec<CompletedRecv> = Vec::new();
                std::mem::swap(&mut window, &mut self.pending);
                assert(self@.pending =~= Seq::empty());
                return Ok(ReceiveStep::Window(window));
            }
            return Ok(ReceiveStep::Kept);
        }
        if self.ended {
            return Err(protocol("received payload after URMA benchmark End"));
        }
        self.ended = true;
        Ok(ReceiveStep::End)
    }

    /// Where in the payload a window starts that was just handed on.
    pub fn window_position(&self, length: usize) -> (position: Result<u64>)
        ensures
            match position {
                Ok(position) => position + length == self@.bytes,
                Err(error) => {
                    &&& length > self@.bytes
                    &&& error@ == ErrorView::InvalidConfiguration(
                        "registered RX window position underflow"@,
                    )
                },
            },
    {
        if length as u64 > self.bytes {
            return Err(invalid("registered RX window position underflow"));
        }
        Ok(self.bytes - length as u64)
    }

    /// Whether credit that is due is returned even below the threshold. Data and end share one
    /// receive queue: where the data used up an exact multiple of the threshold, a partial repost may
    /// be the only credit that lets the parent send the end.
    pub fn flushes(&self) -> (flush: bool)
        ensures
            flush == (self@.received == self@.expected && !self@.ended),
    {
        self.received == self.expected && !self.ended
    }

    /// Which receives are to be posted.
    pub fn plan_replenish(&self, free_rx_slots: usize) -> (plan: (u64, usize))
        requires
            self@.wf(),
        ensures
            plan.0 == self@.credit.posts,
            plan.1 == if self@.credit.needed() <= free_rx_slots {
                self@.credit.needed()
            } else {
                free_rx_slots as nat
            },
    {
        plan_replenish(&self.credit, free_rx_slots)
    }

    /// Counts receives that were posted.
    pub fn note_replenished(&mut self, posted: usize) -> (noted: Result<()>)
        requires
            old(self)@.wf(),
            posted <= old(self)@.credit.needed(),
        ensures
            final(self)@.wf(),
            ({
                let room = u64::MAX - old(self)@.credit.posts;
                let counted = if posted <= room {
                    posted as nat
                } else {
                    room as nat
                };
                &&& final(self)@ == (RunView {
                    credit: CreditView {
                        current: old(self)@.credit.current + counted,
                        posts: old(self)@.credit.posts + counted,
                        ..old(self)@.credit
                    },
                    ..old(self)@
                })
                &&& match noted {
                    Ok(()) => posted <= room,
                    Err(error) => {
                        &&& posted > room
                        &&& error@ == ErrorView::Protocol("receive post sequence overflow"@)
                    },
                }
            }),
    {
        note_replenished(&mut self.credit, posted)
    }

    /// Takes in the message that ends the run.
    pub fn accept_end(&mut self, message: &IntegrationMessageV3) -> (accepted: Result<()>)
        requires
            old(self)@.wf(),
        ensures
            match accepted {
                Ok(()) => {
                    &&& old(self)@.receiver.end_error(message@) is None
                    &&& final(self)@ == (RunView {
                        receiver: UrmaReceiveView { complete: true, ..old(self)@.receiver },
                        ..old(self)@
                    })
                    &&& final(self)@.wf()
                },
                Err(error) => {
                    &&& old(self)@.receiver.end_error(message@) == Some(error@)
                    &&& final(self)@ == old(self)@
                },
            },
    {
        self.receiver.accept_end(message)
    }

    /// Why a run counts as failed after its end, if it does.
    pub open spec fn settled_error(
        run: RunView,
        outstanding_recv: nat,
        integrity: IntegrityResult,
    ) -> Option<ErrorView> {
        if run.credit.remaining != 0 || run.credit.current != 0 || outstanding_recv != 0 {
            Some(ErrorView::Protocol("RX credits or slots remain outstanding after End"@))
        } else if !integrity.length_ok || !integrity.digest_ok {
            Some(ErrorView::Protocol("URMA sink integrity verification failed"@))
        } else {
            None
        }
    }

    /// Checks that nothing is outstanding and that the payload was intact.
    pub fn check_settled(&self, outstanding_recv: usize, integrity: IntegrityResult) -> (checked: Result<
        (),
    >)
        ensures
            match checked {
                Ok(()) => Self::settled_error(self@, outstanding_recv as nat, integrity) is None,
                Err(error) => Self::settled_error(self@, outstanding_recv as nat, integrity)
                    == Some(error@),
            },
    {
        if self.credit.remaining_messages() != 0 || self.credit.current_credit() != 0
            || outstanding_recv != 0 {
            return Err(protocol("RX credits or slots remain outstanding after End"));
        }
        if !integrity.is_ok() {
            return Err(protocol("URMA sink integrity verification failed"));
        }
        Ok(())
    }

    /// The bytes received.
    pub fn bytes_received(&self) -> (bytes: u64)
        ensures
            bytes == self@.bytes,
    {
        self.bytes
    }

    /// Whether every data message of the run has arrived.
    pub fn has_all_data(&self) -> (all: bool)
        ensures
            all == (self@.received == self@.expected),
    {
        self.received == self.expected
    }

    /// The receive credit of the run.
    pub fn credit(&self) -> (credit: &ReceiveCreditController)
        ensures
            credit@ == self@.credit,
    {
        &self.credit
    }
}

/// A window is handed on as soon as it is full, and the last one with the last message: no message
/// that was received waits once all have arrived, and the windows handed on lie one after the other.
pub proof fn windows_lie_end_to_end(run: RunView, message: CompletedRecv)
    requires
        run.wf(),
        run.after(message).1 is Ok,
    ensures
        ({
            let (after, step) = run.after(message);
            &&& after.wf()
            &&& after.bytes - bytes_in(after.pending) == match step->Ok_0 {
                StepView::Kept => run.bytes - bytes_in(run.pending),
                StepView::Window(window) => run.bytes - bytes_in(run.pending) + bytes_in(window),
                StepView::End => run.bytes - bytes_in(run.pending),
            }
        }),
{
    let pending = run.pending.push(message);
    assert(pending.drop_last() =~= run.pending);
}

} // verus!
