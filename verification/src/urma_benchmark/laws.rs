//! What a run over URMA keeps to: which cases and profiles it takes, how it sends, and what it receives.

use vstd::prelude::*;

use super::control;
use super::profile;
use super::receive::UrmaReceiveView;
use super::receiver;
use super::receiver::{ChildRun, RunView, StepView};
use super::sender;
use super::sender::{FillSample, TxFillStats, WindowedSend};
use super::window;
use super::window::SinkView;
use super::{
    CreditView, PipelineView, RemoteCreditView, UrmaPipelineLimits, UrmaBenchmarkProfile,
    UrmaBenchmarkSource,
};
use crate::benchmark;
use crate::benchmark::{BenchmarkCase, BenchmarkScenario, BenchmarkTransport, IntegrityResult};
use crate::buffer::RegisteredRxChunk;
use crate::completion::{CompletedRecv, EventView};
use crate::message::DigestAlgorithm;
use crate::message::{IntegrationBodyView, IntegrationView};
use crate::text;

verus! {

/// A case runs under some limits exactly where it is a valid URMA case, its window is within all of
/// them, its chunks fit in a slot and in a message, and its messages can be numbered.
pub proof fn cases_fit_their_limits_exactly_when(limits: UrmaPipelineLimits, case: BenchmarkCase)
    ensures
        limits.case_error(case) is None <==> {
            &&& case.error() is None
            &&& case.transport == BenchmarkTransport::Urma
            &&& case.window <= limits.tx_slot_count
            &&& case.window <= limits.rx_slot_count
            &&& case.window <= limits.send_jfc_depth
            &&& case.window <= limits.recv_jfc_depth
            &&& case.window <= limits.jetty_send_depth
            &&& case.window <= limits.jetty_recv_depth
            &&& case.chunk_size <= limits.slot_size
            &&& case.chunk_size <= limits.provider_max_message_size
            &&& case.transfer_bytes <= u32::MAX * case.chunk_size
        },
{
    if case.chunk_size > 0 {
        let total = case.transfer_bytes as nat;
        let chunk = case.chunk_size as nat;
        let count = benchmark::chunks_of(total, chunk);
        benchmark::chunks_cover_the_transfer(total, chunk);
        assert(count <= u32::MAX <==> total <= u32::MAX * chunk) by (nonlinear_arith)
            requires
                chunk > 0,
                total <= count * chunk,
                total > 0 ==> count > 0 && (count - 1) * chunk < total,
                total == 0 ==> count == 0,
        ;
    }
}

/// There is a slot size exactly where the alignment is a power of two that suits a pointer, and the
/// rounded size can be counted.
pub proof fn slot_sizes_follow_exactly_when(chunk_size: u64, alignment: usize)
    ensures
        super::slot_size_error(chunk_size, alignment) is None <==> {
            &&& alignment * 8 >= usize::BITS
            &&& crate::buffer::power_of_two(alignment as nat)
            &&& chunk_size + alignment <= usize::MAX + 1
        },
{
    if crate::buffer::power_of_two(alignment as nat) {
        assert(alignment >= 1);
    }
}

/// The profiles have different bytes on the wire; those with a shared range are the three that fix what
/// is sent, and those that verify later are the two that measure the transport alone.
pub proof fn profiles_differ_on_the_wire(left: UrmaBenchmarkProfile, right: UrmaBenchmarkProfile)
    ensures
        left.wire() == right.wire() <==> left == right,
        left.fixed() <==> left.wire() % 2 == 1,
        left.deferred() <==> left.wire() >= 4,
{
}

/// A child that verifies later has a receive slot for every chunk and for the end; a child that
/// verifies as it goes has whole windows, at least 32 of them and at least 512 slots.
pub proof fn children_have_enough_slots(profile: UrmaBenchmarkProfile, case: BenchmarkCase)
    requires
        case.error() is None,
    ensures
        profile.slots(case, true) matches Ok(slots) ==> {
            &&& profile.deferred() && case.transfer_bytes < u64::MAX ==> slots * case.chunk_size
                > case.transfer_bytes && (slots as int - 2) * case.chunk_size < case.transfer_bytes
            &&& (profile == UrmaBenchmarkProfile::Normal || profile
                == UrmaBenchmarkProfile::FixedTx) ==> {
                &&& slots % case.window as nat == 0
                &&& slots >= 32 * case.window
                &&& slots >= 512
                &&& slots < 512 + case.window || slots == 32 * case.window
            }
            &&& (profile == UrmaBenchmarkProfile::Rx128 || profile
                == UrmaBenchmarkProfile::FixedTxRx128) ==> slots == 128
        },
        profile.slots(case, false) matches Ok(slots) ==> slots == if profile
            == UrmaBenchmarkProfile::Rx128 || profile == UrmaBenchmarkProfile::FixedTxRx128 {
            128nat
        } else {
            512nat
        },
{
    let chunk = case.chunk_size as int;
    let total = case.transfer_bytes as int;
    let count = benchmark::chunks_of(case.transfer_bytes as nat, case.chunk_size as nat) as int;
    benchmark::chunks_cover_the_transfer(case.transfer_bytes as nat, case.chunk_size as nat);
    assert((count + 1) * chunk > total && (count - 1) * chunk < total || total == 0)
        by (nonlinear_arith)
        requires
            chunk > 0,
            total >= 0,
            total <= count * chunk,
            total > 0 ==> count > 0 && (count - 1) * chunk < total,
    ;
    if total == 0 {
        assert(count == 0);
        assert((count + 1) * chunk > total && (count - 1) * chunk < total) by (nonlinear_arith)
            requires
                chunk > 0,
                total == 0,
                count == 0,
        ;
    }
    super::slots_are_aligned_and_tight(512, case.window as nat);
    vstd::arithmetic::div_mod::lemma_mod_multiples_basic(32, case.window as int);
}

/// A parent takes a source exactly where it is the case's, and repeats one range only for a memory case
/// of whole chunks under a profile that fixes what is sent.
pub proof fn parents_take_sources_exactly_when(
    case: BenchmarkCase,
    source: UrmaBenchmarkSource,
    profile: UrmaBenchmarkProfile,
)
    requires
        case.chunk_size > 0,
    ensures
        profile::parent_error(case, source, profile) is None <==> {
            &&& source.scenario() == case.scenario
            &&& source.length() == case.transfer_bytes
            &&& profile.fixed() ==> case.scenario == BenchmarkScenario::Memory
                && case.transfer_bytes > 0 && case.transfer_bytes % case.chunk_size == 0
            &&& source is FixedMemory ==> profile.fixed()
        },
{
}

/// The pool of a run has 128 send slots, which share one range under a profile that fixes what is sent,
/// and every chunk fits in a slot.
pub proof fn run_pools_hold_their_chunks(
    case: BenchmarkCase,
    profile: UrmaBenchmarkProfile,
    rx_slots: nat,
)
    requires
        super::slot_size_error(case.chunk_size, 4096) is None,
        rx_slots <= usize::MAX,
    ensures
        ({
            let pool = profile::run_pool(case, profile, rx_slots);
            &&& case.chunk_size <= pool.slot_size < case.chunk_size + 4096
            &&& pool.slot_size % 4096 == 0
            &&& pool.tx_slot_count == 128
            &&& pool.rx_slot_count == rx_slots
            &&& pool.alignment == 4096
            &&& pool.alias_tx_slots == profile.fixed()
        }),
{
    super::slots_are_aligned_and_tight(case.chunk_size as nat, 4096);
}

/// Checksums are taken by one worker at least and by 32 at most, by no more than there are windows, and
/// by one less than there are processors where there are more than two. What is asked for is given where
/// that allows it, and otherwise refused; where nothing is asked for, as many as allowed are taken.
pub proof fn checksum_workers_are_bounded(
    window_count: nat,
    requested: Option<usize>,
    available_cpus: nat,
)
    ensures
        ({
            let workers = profile::crc_workers(window_count, requested, available_cpus);
            &&& workers matches Ok(count) ==> {
                &&& 1 <= count <= 32
                &&& count == 1 || count < available_cpus
                &&& count == 1 || count <= window_count
                &&& requested matches Some(asked) ==> count == asked
                &&& requested is None ==> count == 32 || count + 1 >= available_cpus || count
                    >= window_count
            }
            &&& requested is None ==> workers is Ok
            &&& requested matches Some(asked) ==> (workers is Ok <==> {
                &&& 1 <= asked <= 32
                &&& asked == 1 || asked < available_cpus
                &&& asked == 1 || asked <= window_count
            })
        }),
{
}

/// Receives are posted up to what is configured, and never more than there are messages to come.
pub proof fn receives_are_topped_up(credit: CreditView)
    requires
        credit.wf(),
    ensures
        credit.current + credit.needed() <= credit.configured,
        credit.current + credit.needed() <= credit.remaining,
        credit.current + credit.needed() == credit.configured || credit.current + credit.needed()
            == credit.remaining,
{
}

/// A message is posted exactly where there is credit for it and room in the window; it uses one of each,
/// and the most that were ever under way is kept.
pub proof fn posts_use_credit_and_window(credit: RemoteCreditView, pipeline: PipelineView)
    requires
        pipeline.wf(),
        credit.consumed < usize::MAX,
    ensures
        ({
            let (spent, filled, refused) = sender::after_post(credit, pipeline);
            &&& refused is None <==> credit.available > 0 && pipeline.current < pipeline.window
            &&& refused is None ==> {
                &&& spent.available == credit.available - 1
                &&& spent.consumed == credit.consumed + 1
                &&& spent.initial == credit.initial
                &&& spent.returned == credit.returned
                &&& filled.current == pipeline.current + 1
                &&& filled.window == pipeline.window
                &&& filled.maximum >= filled.current
                &&& filled.maximum >= pipeline.maximum
                &&& filled.maximum == pipeline.maximum || filled.maximum == filled.current
            }
            &&& credit.available == 0 ==> spent == credit && filled == pipeline
        }),
{
}

/// Completions of sends are taken off the window one by one, and nothing else is: where all are taken,
/// all were sends, and there were no more than were under way.
pub proof fn completions_are_taken_off_the_window(pipeline: PipelineView, events: Seq<EventView>)
    ensures
        ({
            let (after, counted) = sender::after_events(pipeline, events);
            &&& counted is Ok <==> events.len() <= pipeline.current && forall|i: int|
                0 <= i < events.len() ==> (#[trigger] events[i]) is SendCompleted
            &&& counted matches Ok(count) ==> {
                &&& count == events.len()
                &&& after.current == pipeline.current - events.len()
            }
            &&& after.window == pipeline.window
            &&& after.maximum == pipeline.maximum
            &&& after.current <= pipeline.current
        }),
    decreases events.len(),
{
    if events.len() > 0 {
        let shorter = events.drop_last();
        completions_are_taken_off_the_window(pipeline, shorter);
        let last = events.len() - 1;
        if sender::after_events(pipeline, events).1 is Ok {
            assert forall|i: int| 0 <= i < events.len() implies (#[trigger] events[i])
                is SendCompleted by {
                if i < last {
                    assert(shorter[i] == events[i]);
                }
            }
        } else if events.len() <= pipeline.current && forall|i: int|
            0 <= i < events.len() ==> (#[trigger] events[i]) is SendCompleted {
            assert forall|i: int| 0 <= i < shorter.len() implies (#[trigger] shorter[i])
                is SendCompleted by {
                assert(shorter[i] == events[i]);
            }
            assert(events[last] is SendCompleted);
        }
    }
}

/// A credit update is taken exactly where it gives some credit and no more than the peer's queue holds;
/// it adds that much and counts as one.
pub proof fn credit_updates_are_taken_exactly_when(credit: RemoteCreditView, count: nat)
    requires
        credit.wf(),
        credit.initial <= usize::MAX,
        credit.updates < usize::MAX,
    ensures
        ({
            let (after, refused) = control::granted(credit, count);
            &&& refused is None <==> 1 <= count && credit.available + count <= credit.initial
            &&& refused is None ==> {
                &&& after.available == credit.available + count
                &&& after.returned == credit.returned + count
                &&& after.updates == credit.updates + 1
                &&& after.consumed == credit.consumed
                &&& after.initial == credit.initial
                &&& after.waits == credit.waits
            }
            &&& refused is Some ==> after == credit
        }),
{
}

/// While credit is waited for, only a credit update is taken; while the end is waited for, a credit
/// update goes on waiting and the end ends it.
pub proof fn control_messages_are_taken_by_kind(
    credit: RemoteCreditView,
    kind: u16,
    message: Seq<u8>,
)
    ensures
        kind == 4 ==> control::waited_frame(credit, kind, message) == control::credited(
            credit,
            message,
        ),
        kind != 4 ==> control::waited_frame(credit, kind, message).1 is Some
            && control::waited_frame(credit, kind, message).0 == credit,
        control::done_frame(credit, kind, message).1 matches Ok(done) ==> {
            &&& done <==> kind == 3
            &&& done ==> control::done_frame(credit, kind, message).0 == credit
            &&& !done ==> kind == 4 && control::credited(credit, message).1 is None
        },
        control::done_frame(credit, kind, message).1 is Err ==> kind != 3,
        kind == 4 ==> control::done_frame(credit, kind, message).0 == control::credited(
            credit,
            message,
        ).0,
{
}

/// A wait for credit is allowed exactly for some messages, and for no more than there ever was credit
/// for.
pub proof fn waits_are_within_the_credit(credit: RemoteCreditView, required: nat)
    requires
        credit.waits < usize::MAX,
    ensures
        control::wait_error(credit, required) is None <==> 1 <= required <= credit.initial,
{
}

/// A run has drained exactly where nothing is under way, and a window of more than one message was
/// used where there was more than one.
pub proof fn runs_have_drained_exactly_when(
    pipeline: PipelineView,
    outstanding_send: nat,
    window: u32,
    data_messages: u32,
)
    ensures
        sender::drained_error(pipeline, outstanding_send, window, data_messages) is None <==> {
            &&& pipeline.current == 0
            &&& outstanding_send == 0
            &&& window > 1 && data_messages > 1 ==> pipeline.maximum > 1
        },
{
}

/// A range of a source in memory is taken exactly where the source holds it.
pub proof fn ranges_lie_in_the_source(available: nat, offset: nat, length: nat)
    requires
        available <= usize::MAX,
    ensures
        sender::range_error(available, offset, length) is None <==> offset + length <= available,
{
}

/// What a fill adds to the counters: its bytes and its time; its reads where it read a file; a batch of
/// a file where the source is one; and an overlap where something was being sent meanwhile.
pub proof fn fills_are_counted(
    before: TxFillStats,
    bytes: u64,
    sample: FillSample,
    is_file: bool,
    overlaps_send: bool,
)
    requires
        before.pread_ns + sample.pread_ns <= u64::MAX,
        before.pread_calls + sample.pread_calls <= u64::MAX,
        before.pread_bytes + bytes <= u64::MAX,
        before.fill_bytes + bytes <= u64::MAX,
        before.fill_ns + sample.fill_ns <= u64::MAX,
        before.overlap_batches < u64::MAX,
        before.file_batch_count < u64::MAX,
    ensures
        ({
            let after = before.after(bytes, sample, is_file, overlaps_send);
            &&& after.pread_ns == before.pread_ns + sample.pread_ns
            &&& after.pread_calls == before.pread_calls + sample.pread_calls
            &&& after.pread_bytes == before.pread_bytes + if sample.used_pread {
                bytes as int
            } else {
                0
            }
            &&& after.fill_bytes == before.fill_bytes + bytes
            &&& after.fill_ns == before.fill_ns + sample.fill_ns
            &&& after.overlap_batches == before.overlap_batches + if overlaps_send {
                1int
            } else {
                0int
            }
            &&& after.file_batch_count == before.file_batch_count + if is_file {
                1int
            } else {
                0int
            }
            &&& is_file ==> after.file_batch_max_bytes >= bytes
            &&& after.file_batch_max_bytes >= before.file_batch_max_bytes
            &&& after.file_batch_max_bytes == before.file_batch_max_bytes
                || after.file_batch_max_bytes == bytes
            &&& !is_file ==> after.file_batch_max_bytes == before.file_batch_max_bytes
            &&& overlaps_send ==> after.ring_windows >= 2
            &&& after.ring_windows >= 1
            &&& before.ring_windows <= 2 ==> after.ring_windows <= 2
            &&& before.ring_windows <= 1 && !overlaps_send ==> after.ring_windows == 1
        }),
{
}

/// A batch of a sender is as many full chunks as there is room for, or all that is left: it moves the
/// sender on by its bytes and its messages.
pub proof fn batches_move_the_sender_on(send: WindowedSend)
    requires
        send.wf(),
        send.posted_error() is None,
    ensures
        ({
            let batch = send.batch();
            let after = send.after_batch();
            let room = send.chunk_size * send.capacity;
            &&& batch.bytes <= send.source_length - send.offset
            &&& batch.bytes <= room
            &&& batch.bytes == send.source_length - send.offset || batch.bytes == room
            &&& after.offset == send.offset + batch.bytes
            &&& after.bytes_sent == send.bytes_sent + batch.bytes
            &&& after.sequence == send.sequence + batch.lengths.len()
            &&& after.source_length == send.source_length
            &&& batch.lengths.len() <= send.capacity
        }),
{
    let room = send.chunk_size * send.capacity;
    assert(room >= 0) by (nonlinear_arith)
        requires
            room == send.chunk_size * send.capacity,
            send.chunk_size > 0,
            send.capacity > 0,
    ;
}

/// Metadata are taken exactly once, at the start, where they are for this request and announce the
/// length and the checksum that are expected.
pub proof fn metadata_are_taken_exactly_when(receiver: UrmaReceiveView, message: IntegrationView)
    ensures
        receiver.metadata_error(message) is None <==> {
            &&& message.request_id == receiver.request_id
            &&& message.sequence == 0
            &&& !receiver.metadata_seen
            &&& message.body matches IntegrationBodyView::Metadata { offset, total_length, digest }
                && offset == 0 && total_length == receiver.expected_bytes && digest.algorithm
                == DigestAlgorithm::Crc32 && text::unsigned_value(digest.value) == Some(
                receiver.expected_crc32 as nat,
            )
        },
{
}

/// A payload is taken exactly in its turn, after the metadata and before the end, where it is not empty
/// and no more than was announced; it then counts as one message and its bytes.
pub proof fn payloads_are_taken_exactly_when(receiver: UrmaReceiveView, sequence: u32, length: nat)
    requires
        receiver.wf(),
    ensures
        receiver.data_error(sequence, length) is None <==> {
            &&& receiver.metadata_seen
            &&& !receiver.complete
            &&& sequence == receiver.next_sequence
            &&& length > 0
            &&& receiver.actual_bytes + length <= receiver.expected_bytes
        },
        receiver.data_error(sequence, length) is None ==> ({
            let (after, failed) = receiver.after_data(length);
            &&& failed is None <==> receiver.next_sequence < u32::MAX
            &&& after.actual_bytes == receiver.actual_bytes + length
            &&& failed is None ==> after.next_sequence == receiver.next_sequence + 1
            &&& after.metadata_seen && !after.complete
            &&& after.expected_bytes == receiver.expected_bytes
            &&& after.expected_crc32 == receiver.expected_crc32
            &&& after.request_id == receiver.request_id
        }),
{
}

/// The end is taken exactly where every announced byte has come, and it counts the messages that came.
pub proof fn ends_are_taken_exactly_when(receiver: UrmaReceiveView, message: IntegrationView)
    ensures
        receiver.end_error(message) is None <==> {
            &&& message.request_id == receiver.request_id
            &&& receiver.metadata_seen
            &&& !receiver.complete
            &&& message.sequence == receiver.next_sequence
            &&& receiver.actual_bytes == receiver.expected_bytes
            &&& message.body matches IntegrationBodyView::End { total_length, chunk_count }
                && chunk_count == receiver.next_sequence && total_length == receiver.expected_bytes
        },
{
}

/// After the metadata, a message is taken exactly where it is this request's and a payload or an end
/// that is taken; a peer's error ends the transfer.
pub proof fn messages_are_taken_exactly_when(receiver: UrmaReceiveView, message: IntegrationView)
    requires
        receiver.wf(),
    ensures
        receiver.payload_error(message) is None <==> {
            ||| message.request_id == receiver.request_id && (message.body matches
                IntegrationBodyView::Data(payload) && receiver.data_error(
                message.sequence,
                payload.len(),
            ) is None)
            ||| receiver.end_error(message) is None
        },
{
}

/// A child takes a completed receive exactly where it posted one; a data message in its turn is kept
/// until its window is full or the data end, and what follows the data is the end, once.
pub proof fn children_take_messages_in_order(run: RunView, message: CompletedRecv)
    requires
        run.wf(),
    ensures
        ({
            let (after, step) = run.after(message);
            &&& run.credit.current == 0 ==> step is Err && after == run
            &&& run.credit.current > 0 ==> {
                &&& after.credit.current == run.credit.current - 1
                &&& after.credit.remaining == run.credit.remaining - 1
                &&& after.credit.configured == run.credit.configured
            }
            &&& run.credit.current > 0 && run.received < run.expected ==> {
                &&& step is Ok <==> message.sequence == Some(run.received as u64)
                    && run.receiver.data_error(run.received, message.length as nat) is None
                &&& step is Ok ==> {
                    &&& after.received == run.received + 1
                    &&& after.bytes == run.bytes + message.length
                    &&& after.ended == run.ended
                    &&& step->Ok_0 is Window <==> run.pending.len() + 1 == run.window || run.received
                        + 1 == run.expected
                    &&& step->Ok_0 matches StepView::Window(messages) ==> messages
                        == run.pending.push(message) && after.pending.len() == 0
                    &&& step->Ok_0 is Kept ==> after.pending == run.pending.push(message)
                    &&& !(step->Ok_0 is End)
                }
            }
            &&& run.credit.current > 0 && run.received == run.expected ==> {
                &&& step is Ok <==> !run.ended
                &&& step is Ok ==> step->Ok_0 is End && after.ended
                &&& after.received == run.received
                &&& after.bytes == run.bytes
            }
        }),
{
}

/// A run has settled exactly where no receive is posted or expected any more and the payload is intact.
pub proof fn runs_have_settled_exactly_when(
    run: RunView,
    outstanding_recv: nat,
    integrity: IntegrityResult,
)
    ensures
        ChildRun::settled_error(run, outstanding_recv, integrity) is None <==> {
            &&& run.credit.remaining == 0
            &&& run.credit.current == 0
            &&& outstanding_recv == 0
            &&& integrity.length_ok
            &&& integrity.digest_ok
        },
{
}

/// The bytes of two runs of messages are those of the first and those of the second.
pub proof fn received_bytes_add_up(
    earlier: Seq<CompletedRecv>,
    later: Seq<CompletedRecv>,
    message: CompletedRecv,
)
    ensures
        receiver::bytes_in(earlier + later) == receiver::bytes_in(earlier) + receiver::bytes_in(
            later,
        ),
        receiver::bytes_in(seq![message]) == message.length,
    decreases later.len(),
{
    reveal_with_fuel(receiver::bytes_in, 2);
    assert(seq![message].drop_last() =~= Seq::<CompletedRecv>::empty());
    if later.len() == 0 {
        assert(earlier + later =~= earlier);
    } else {
        received_bytes_add_up(earlier, later.drop_last(), message);
        assert((earlier + later).drop_last() =~= earlier + later.drop_last());
    }
}

/// The messages of a window are taken exactly where each has a sequence and follows the one before it,
/// and their bytes are then counted together.
pub proof fn windows_are_scanned_exactly_when(chunks: Seq<RegisteredRxChunk>)
    ensures
        window::scanned(chunks) is Ok ==> {
            &&& window::scanned(chunks)->Ok_0 == chunk_bytes(chunks)
            &&& forall|i: int| 0 <= i < chunks.len() ==> (#[trigger] chunks[i]).sequence is Some
            &&& forall|i: int|
                0 < i < chunks.len() ==> (#[trigger] chunks[i]).sequence->0 == chunks[i
                    - 1].sequence->0 + 1
        },
        chunk_bytes(chunks) <= usize::MAX && (forall|i: int|
            0 <= i < chunks.len() ==> (#[trigger] chunks[i]).sequence is Some) && (forall|i: int|
            0 < i < chunks.len() ==> (#[trigger] chunks[i]).sequence->0 == chunks[i - 1].sequence->0
                + 1) ==> window::scanned(chunks) is Ok,
    decreases chunks.len(),
{
    if chunks.len() > 0 {
        let shorter = chunks.drop_last();
        windows_are_scanned_exactly_when(shorter);
        let last = chunks.len() - 1;
        if window::scanned(chunks) is Ok {
            assert forall|i: int| 0 <= i < chunks.len() implies (#[trigger] chunks[i]).sequence
                is Some by {
                if i < last {
                    assert(shorter[i] == chunks[i]);
                }
            }
            assert forall|i: int| 0 < i < chunks.len() implies (#[trigger] chunks[i]).sequence->0
                == chunks[i - 1].sequence->0 + 1 by {
                if i < last {
                    assert(shorter[i] == chunks[i]);
                    assert(shorter[i - 1] == chunks[i - 1]);
                }
            }
        }
        if chunk_bytes(chunks) <= usize::MAX && (forall|i: int|
            0 <= i < chunks.len() ==> (#[trigger] chunks[i]).sequence is Some) && (forall|i: int|
            0 < i < chunks.len() ==> (#[trigger] chunks[i]).sequence->0 == chunks[i - 1].sequence->0
                + 1) {
            assert forall|i: int| 0 <= i < shorter.len() implies (#[trigger] shorter[i]).sequence
                is Some by {
                assert(shorter[i] == chunks[i]);
            }
            assert forall|i: int| 0 < i < shorter.len() implies (#[trigger] shorter[i]).sequence->0
                == shorter[i - 1].sequence->0 + 1 by {
                assert(shorter[i] == chunks[i]);
            }
            assert(chunks[last].sequence is Some);
        }
    }
}

/// The bytes of some messages, together.
pub open spec fn chunk_bytes(chunks: Seq<RegisteredRxChunk>) -> nat
    decreases chunks.len(),
{
    if chunks.len() == 0 {
        0
    } else {
        chunk_bytes(chunks.drop_last()) + chunks.last().length as nat
    }
}

/// Windows go to the workers in turn, and each is numbered by the one before.
pub proof fn windows_go_to_workers_in_turn(sink: SinkView)
    requires
        sink.wf(),
        sink.next_order < u64::MAX,
    ensures
        ({
            let after = sink.after_push();
            &&& after.next_order == sink.next_order + 1
            &&& after.next_worker < sink.workers
            &&& after.next_worker == (sink.next_worker + 1) % sink.workers
            &&& after.outstanding == sink.outstanding + 1
            &&& after.combined == sink.combined
            &&& after.actual_bytes == sink.actual_bytes
            &&& after.recycled == sink.recycled
        }),
{
    if sink.next_worker + 1 < sink.workers {
        vstd::arithmetic::div_mod::lemma_small_mod((sink.next_worker + 1) as nat, sink.workers);
    } else {
        vstd::arithmetic::div_mod::lemma_mod_self_0(sink.workers as int);
    }
}

/// The verification is concluded exactly where no window is outstanding, the workers ended well, none
/// failed, and every window that was handed out was combined.
pub proof fn verifications_are_concluded_exactly_when(sink: SinkView, joined: bool)
    ensures
        sink.conclude_error(joined) is None <==> {
            &&& sink.outstanding == 0
            &&& joined
            &&& sink.failure is None
            &&& sink.pending.is_empty()
            &&& sink.next_combine == sink.next_order
        },
{
}

/// The difference of two counters is what was counted in between.
pub proof fn counters_are_compared(start: u64, more: u64)
    requires
        start + more <= u64::MAX,
    ensures
        control::counted_since((start + more) as u64, start) == more,
        control::counted_since(start, (start + more) as u64) == 0,
{
}

/// The checksum that metadata announce is taken exactly where they are metadata with a CRC-32 that is a
/// number of 32 bits.
pub proof fn checksums_are_announced_exactly_when(message: IntegrationView)
    ensures
        receiver::crc32_announced(message) is Ok <==> (message.body matches
            IntegrationBodyView::Metadata { digest, .. } && digest.algorithm
            == DigestAlgorithm::Crc32 && (text::unsigned_value(digest.value) matches Some(value)
            && value <= u32::MAX)),
        receiver::crc32_announced(message) matches Ok(crc32) ==> (message.body matches
            IntegrationBodyView::Metadata { digest, .. } && text::unsigned_value(digest.value)
            == Some(crc32 as nat)),
{
}

/// An outcome that comes in waits under its own order, in place of none: a second one under that order is
/// a failure, and the first failure is kept.
pub proof fn outcomes_wait_under_their_order(sink: SinkView, outcome: window::OutcomeView, other: u64)
    ensures
        ({
            let after = sink.with_outcome(outcome);
            &&& after.pending.contains_key(outcome.order)
            &&& after.pending[outcome.order] == outcome
            &&& other != outcome.order ==> after.pending.contains_key(other)
                == sink.pending.contains_key(other)
            &&& other != outcome.order && sink.pending.contains_key(other)
                ==> after.pending[other] == sink.pending[other]
            &&& sink.outstanding > 0 ==> after.outstanding == sink.outstanding - 1
            &&& sink.failure is Some ==> after.failure == sink.failure
            &&& sink.failure is None ==> (after.failure is Some <==> sink.pending.contains_key(
                outcome.order,
            ))
            &&& after.combined == sink.combined
            &&& after.recycled == sink.recycled
            &&& after.actual_bytes == sink.actual_bytes
        }),
{
}

/// The outcome whose turn it is leaves: its window is given back after those before it, its bytes follow
/// theirs and are counted, and the next one's turn comes. One that failed gives its window back too, and
/// is the failure unless there was one before.
pub proof fn outcomes_are_combined_in_turn(sink: SinkView)
    requires
        sink.pending.contains_key(sink.next_combine),
        sink.next_combine < u64::MAX,
    ensures
        ({
            let outcome = sink.pending[sink.next_combine];
            let after = sink.retire();
            &&& after.next_combine == sink.next_combine + 1
            &&& after.recycled == sink.recycled + seq![outcome.window]
            &&& !after.pending.contains_key(sink.next_combine)
            &&& match outcome.digest {
                Ok(bytes) => {
                    &&& after.combined == sink.combined + bytes
                    &&& sink.actual_bytes + outcome.length <= u64::MAX ==> after.actual_bytes
                        == sink.actual_bytes + outcome.length
                    &&& after.failure == sink.failure
                },
                Err(error) => {
                    &&& after.combined == sink.combined
                    &&& after.actual_bytes == sink.actual_bytes
                    &&& sink.failure is None ==> after.failure == Some(error)
                    &&& sink.failure is Some ==> after.failure == sink.failure
                },
            }
        }),
{
    let outcome = sink.pending[sink.next_combine];
    assert(sink.recycled.push(outcome.window) =~= sink.recycled + seq![outcome.window]);
}

/// A window is taken exactly where its messages are sound and cover it, and it lies within what is
/// expected.
pub proof fn windows_are_taken_exactly_when(
    sink: SinkView,
    position: u64,
    lease: crate::buffer::LeaseView,
)
    requires
        sink.next_order < u64::MAX,
        sink.outstanding < usize::MAX,
    ensures
        sink.push_error(position, lease) is None <==> {
            &&& window::scanned(lease.chunks) matches Ok(total) && total == lease.length
            &&& position + lease.length <= sink.sink.expected_bytes
        },
{
}

/// A payload that is sent over and over is as long as all its repeats, and holds each of them.
pub proof fn repeated_payloads_hold_every_repeat(payload: Seq<u8>, first: nat, more: nat)
    ensures
        sender::repeated(payload, 1) == payload,
        sender::repeated(payload, first).len() == payload.len() * first,
        sender::repeated(payload, first + more) == sender::repeated(payload, first)
            + sender::repeated(payload, more),
    decreases more,
{
    reveal_with_fuel(sender::repeated, 2);
    assert(Seq::<u8>::empty() + payload =~= payload);
    lemma_repeated_length(payload, first);
    if more == 0 {
        assert(sender::repeated(payload, first) + Seq::<u8>::empty() =~= sender::repeated(
            payload,
            first,
        ));
    } else {
        repeated_payloads_hold_every_repeat(payload, first, (more - 1) as nat);
        assert(sender::repeated(payload, first + more) =~= sender::repeated(payload, first)
            + sender::repeated(payload, more));
    }
}

proof fn lemma_repeated_length(payload: Seq<u8>, count: nat)
    ensures
        sender::repeated(payload, count).len() == payload.len() * count,
    decreases count,
{
    if count > 0 {
        lemma_repeated_length(payload, (count - 1) as nat);
        assert(payload.len() * (count - 1) + payload.len() == payload.len() * count)
            by (nonlinear_arith);
    } else {
        assert(payload.len() * 0 == 0) by (nonlinear_arith);
    }
}

/// Credit is neither lost nor made up: over two steps, what was returned and what is held back grow by
/// what was reposted, and what was returned grows by what was given.
pub proof fn credit_accounts_add_up(
    first: super::CreditReturnView,
    second: super::CreditReturnView,
    third: super::CreditReturnView,
    reposted: nat,
    given: nat,
    more_reposted: nat,
    more_given: nat,
)
    requires
        second.accounts(first, reposted, given),
        third.accounts(second, more_reposted, more_given),
    ensures
        third.returned + third.pending == first.returned + first.pending + reposted + more_reposted,
        third.returned == first.returned + given + more_given,
        third.threshold == first.threshold,
        third.accounts(first, reposted + more_reposted, given + more_given),
{
}

/// The number of receives that are kept posted is the most that there are both slots for and messages
/// to come.
pub proof fn posted_receives_are_as_many_as_possible(
    target: nat,
    rx_slot_count: nat,
    remaining_messages: nat,
    other: nat,
)
    requires
        super::keeps_posted(target, rx_slot_count, remaining_messages),
    ensures
        target <= rx_slot_count,
        target <= remaining_messages,
        other <= rx_slot_count && other <= remaining_messages ==> other <= target,
{
}

} // verus!
