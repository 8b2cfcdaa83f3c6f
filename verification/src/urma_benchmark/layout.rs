//! Where the fields of the control messages stand on the wire.

use vstd::prelude::*;

use super::control;
use super::control::DoneView;
use super::UrmaBenchmarkProfile;
use crate::bytes;
use crate::text;

verus! {

/// A control header has its magic, its version, its kind and the length of what follows at fixed
/// places; one is read exactly where the first two are right and no more than 4096 bytes follow.
pub proof fn control_headers_are_laid_out(kind: u16, length: nat, header: Seq<u8>)
    requires
        length <= u32::MAX,
        header.len() == 12,
    ensures
        ({
            let wire = control::header_wire(kind, length);
            &&& wire.len() == 12
            &&& bytes::be_value(wire.subrange(0, 4)) == 0x4252_4d41
            &&& bytes::be_value(wire.subrange(4, 6)) == 3
            &&& bytes::be_value(wire.subrange(6, 8)) == kind
            &&& bytes::be_value(wire.subrange(8, 12)) == length
        }),
        control::header_parse(header) is Ok <==> {
            &&& bytes::be_value(header.subrange(0, 4)) == 0x4252_4d41
            &&& bytes::be_value(header.subrange(4, 6)) == 3
            &&& bytes::be_value(header.subrange(8, 12)) <= 4096
        },
        control::header_parse(header) matches Ok((read, following)) ==> {
            &&& read == bytes::be_value(header.subrange(6, 8))
            &&& following == bytes::be_value(header.subrange(8, 12))
        },
{
    let wire = control::header_wire(kind, length);
    bytes::lemma_be_bounds();
    bytes::lemma_be(0x4252_4d41, 4);
    bytes::lemma_be(3, 2);
    bytes::lemma_be(kind as nat, 2);
    bytes::lemma_be(length, 4);
    assert(wire.subrange(0, 4) =~= bytes::be(0x4252_4d41, 4));
    assert(wire.subrange(4, 6) =~= bytes::be(3, 2));
    assert(wire.subrange(6, 8) =~= bytes::be(kind as nat, 2));
    assert(wire.subrange(8, 12) =~= bytes::be(length, 4));
    bytes::lemma_be_of_value(header.subrange(6, 8));
}

/// READY has the case's name first, after its length, then the credit, and the profile at the end; it
/// fits a run exactly where all three are the run's, and there is credit.
pub proof fn ready_messages_fit_exactly_when(
    case_id: Seq<char>,
    credit: nat,
    profile: u8,
    expected_case: Seq<char>,
    expected_credit: nat,
    expected_profile: UrmaBenchmarkProfile,
)
    requires
        text::utf8(case_id).len() <= u16::MAX,
        0 < credit <= u32::MAX,
    ensures
        ({
            let wire = control::ready_wire(case_id, credit, profile);
            let at = 2 + text::utf8(case_id).len() as int;
            &&& wire.len() == at + 5
            &&& bytes::be_value(wire.subrange(0, 2)) == at - 2
            &&& wire.subrange(2, at) == text::utf8(case_id)
            &&& bytes::be_value(wire.subrange(at, at + 4)) == credit
            &&& wire[at + 4] == profile
            &&& control::ready_error(wire, expected_case, expected_credit, expected_profile) is None
                <==> case_id == expected_case && credit == expected_credit && profile
                == expected_profile.wire()
        }),
{
    control::ready_round_trip(case_id, credit, profile);
    let wire = control::ready_wire(case_id, credit, profile);
    let at = 2 + text::utf8(case_id).len() as int;
    bytes::lemma_be_bounds();
    bytes::lemma_be(text::utf8(case_id).len(), 2);
    bytes::lemma_be(credit, 4);
    assert(wire.subrange(0, 2) =~= bytes::be(text::utf8(case_id).len(), 2));
    assert(wire.subrange(2, at) =~= text::utf8(case_id));
    assert(wire.subrange(at, at + 4) =~= bytes::be(credit, 4));
}

/// READY is read only where it is what would be written.
pub proof fn ready_messages_are_read_only_as_written(payload: Seq<u8>)
    requires
        control::ready_parse(payload) is Ok,
    ensures
        ({
            let (case_id, credit, profile) = control::ready_parse(payload)->Ok_0;
            &&& credit > 0
            &&& control::ready_wire(case_id, credit, profile) == payload
        }),
{
    let (case_id, credit, profile) = control::ready_parse(payload)->Ok_0;
    let length = bytes::be_value(payload.subrange(0, 2)) as int;
    let case = payload.subrange(2, 2 + length);
    bytes::lemma_be_of_value(payload.subrange(0, 2));
    bytes::lemma_be_of_value(payload.subrange(2 + length, 6 + length));
    vstd::utf8::decode_utf8_encode_utf8(case);
    text::lemma_utf8_properties(case_id);
    assert(text::utf8(case_id) == case);
    assert(payload =~= payload.subrange(0, 2) + case + payload.subrange(2 + length, 6 + length)
        + seq![payload.last()]);
}

/// A credit update is four bytes that are not all zero, and is read only where it is what would be
/// written.
pub proof fn credit_messages_are_read_only_as_written(payload: Seq<u8>)
    ensures
        control::credit_parse(payload) is Ok <==> payload.len() == 4 && bytes::be_value(payload) > 0,
        control::credit_parse(payload) matches Ok(count) ==> bytes::be(count, 4) == payload,
{
    bytes::lemma_be_of_value(payload);
}

/// The number in the eight bytes at a place, counted in such numbers from a start.
pub open spec fn word_at(wire: Seq<u8>, start: int, index: int) -> nat {
    bytes::be_value(wire.subrange(start + 8 * index, start + 8 * index + 8))
}

/// DONE has the case's name first, after its length, then each of its numbers at its own place, and the
/// two checksums at the end.
#[verifier::spinoff_prover]
#[verifier::rlimit(60)]
pub proof fn done_messages_are_laid_out(done: DoneView)
    requires
        text::utf8(done.case_id).len() <= u16::MAX,
    ensures
        ({
            let wire = done.wire();
            let at = 2 + text::utf8(done.case_id).len() as int;
            &&& wire.len() == at + 352
            &&& bytes::be_value(wire.subrange(0, 2)) == at - 2
            &&& wire.subrange(2, at) == text::utf8(done.case_id)
            &&& word_at(wire, at, 0) == done.integrity.expected_bytes
            &&& word_at(wire, at, 1) == done.integrity.actual_bytes
            &&& word_at(wire, at, 2) == done.elapsed_ns
            &&& word_at(wire, at, 3) == done.child_cpu.user_us
            &&& word_at(wire, at, 4) == done.child_cpu.system_us
            &&& word_at(wire, at, 5) == done.completion.send_post
            &&& word_at(wire, at, 6) == done.completion.recv_post
            &&& word_at(wire, at, 7) == done.completion.send_post_calls
            &&& word_at(wire, at, 8) == done.completion.recv_post_calls
            &&& word_at(wire, at, 9) == done.completion.send_post_list_max
            &&& word_at(wire, at, 10) == done.completion.recv_post_list_max
            &&& word_at(wire, at, 11) == done.completion.send_cqe
            &&& word_at(wire, at, 12) == done.completion.send_retired
            &&& word_at(wire, at, 13) == done.completion.recv_cqe
            &&& word_at(wire, at, 14) == done.completion.cqe_error
            &&& word_at(wire, at, 15) == done.completion.poll_calls
            &&& word_at(wire, at, 16) == done.completion.empty_polls
            &&& word_at(wire, at, 17) == done.completion.send_jfc_poll_calls
            &&& word_at(wire, at, 18) == done.completion.send_jfc_empty_polls
            &&& word_at(wire, at, 19) == done.completion.recv_jfc_poll_calls
            &&& word_at(wire, at, 20) == done.completion.recv_jfc_empty_polls
            &&& word_at(wire, at, 21) == done.completion.yield_count
            &&& word_at(wire, at, 22) == done.completion.sleep_count
            &&& word_at(wire, at, 23) == done.completion.backoff_sleep_ns
            &&& word_at(wire, at, 24) == done.completion.jfc_rearm_count
            &&& word_at(wire, at, 25) == done.completion.event_wait_count
            &&& word_at(wire, at, 26) == done.completion.event_wakeup_count
            &&& word_at(wire, at, 27) == done.completion.event_timeout_count
            &&& word_at(wire, at, 28) == done.completion.spurious_wakeup_count
            &&& word_at(wire, at, 29) == done.completion.event_wait_ns
            &&& word_at(wire, at, 30) == done.completion.max_event_wait_ns
            &&& word_at(wire, at, 31) == done.completion.max_empty_streak
            &&& word_at(wire, at, 32) == done.completion.nonempty_polls
            &&& word_at(wire, at, 33) == done.completion.completion_batch_total
            &&& word_at(wire, at, 34) == done.completion.max_completion_poll_gap_ns
            &&& word_at(wire, at, 35) == done.completion.max_outstanding_send
            &&& word_at(wire, at, 36) == done.payload_poll.poll_calls
            &&& word_at(wire, at, 37) == done.payload_poll.empty_polls
            &&& word_at(wire, at, 38) == done.payload_poll.send_jfc_poll_calls
            &&& word_at(wire, at, 39) == done.payload_poll.send_jfc_empty_polls
            &&& word_at(wire, at, 40) == done.payload_poll.recv_jfc_poll_calls
            &&& word_at(wire, at, 41) == done.payload_poll.recv_jfc_empty_polls
            &&& word_at(wire, at, 42) == done.bytes_received
            &&& bytes::be_value(wire.subrange(at + 344, at + 348)) == done.integrity.expected_crc32
            &&& bytes::be_value(wire.subrange(at + 348, at + 352)) == done.integrity.actual_crc32
        }),
{
    let wire = done.wire();
    let case = text::utf8(done.case_id);
    let at = 2 + case.len() as int;
    let words = done.words();
    bytes::lemma_be_bounds();
    bytes::lemma_be(case.len(), 2);
    bytes::lemma_be(done.integrity.expected_crc32 as nat, 4);
    bytes::lemma_be(done.integrity.actual_crc32 as nat, 4);
    control::lemma_packed(words);
    assert(wire.subrange(0, 2) =~= bytes::be(case.len(), 2));
    assert(wire.subrange(2, at) =~= case);
    assert(wire.subrange(at + 344, at + 348) =~= bytes::be(
        done.integrity.expected_crc32 as nat,
        4,
    ));
    assert(wire.subrange(at + 348, at + 352) =~= bytes::be(done.integrity.actual_crc32 as nat, 4));
    assert forall|i: int| 0 <= i < 43 implies #[trigger] word_at(wire, at, i) == words[i] by {
        assert(wire.subrange(at + 8 * i, at + 8 * i + 8) =~= control::packed(words).subrange(
            8 * i,
            8 * i + 8,
        ));
        bytes::lemma_be(words[i] as nat, 8);
    }
    assert(words[0] == done.integrity.expected_bytes);
    assert(words[1] == done.integrity.actual_bytes);
    assert(words[2] == done.elapsed_ns);
    assert(words[3] == done.child_cpu.user_us);
    assert(words[4] == done.child_cpu.system_us);
    assert(words[5] == done.completion.send_post);
    assert(words[6] == done.completion.recv_post);
    assert(words[7] == done.completion.send_post_calls);
    assert(words[8] == done.completion.recv_post_calls);
    assert(words[9] == done.completion.send_post_list_max);
    assert(words[10] == done.completion.recv_post_list_max);
    assert(words[11] == done.completion.send_cqe);
    assert(words[12] == done.completion.send_retired);
    assert(words[13] == done.completion.recv_cqe);
    assert(words[14] == done.completion.cqe_error);
    assert(words[15] == done.completion.poll_calls);
    assert(words[16] == done.completion.empty_polls);
    assert(words[17] == done.completion.send_jfc_poll_calls);
    assert(words[18] == done.completion.send_jfc_empty_polls);
    assert(words[19] == done.completion.recv_jfc_poll_calls);
    assert(words[20] == done.completion.recv_jfc_empty_polls);
    assert(words[21] == done.completion.yield_count);
    assert(words[22] == done.completion.sleep_count);
    assert(words[23] == done.completion.backoff_sleep_ns);
    assert(words[24] == done.completion.jfc_rearm_count);
    assert(words[25] == done.completion.event_wait_count);
    assert(words[26] == done.completion.event_wakeup_count);
    assert(words[27] == done.completion.event_timeout_count);
    assert(words[28] == done.completion.spurious_wakeup_count);
    assert(words[29] == done.completion.event_wait_ns);
    assert(words[30] == done.completion.max_event_wait_ns);
    assert(words[31] == done.completion.max_empty_streak);
    assert(words[32] == done.completion.nonempty_polls);
    assert(words[33] == done.completion.completion_batch_total);
    assert(words[34] == done.completion.max_completion_poll_gap_ns);
    assert(words[35] == done.completion.max_outstanding_send);
    assert(words[36] == done.payload_poll.poll_calls);
    assert(words[37] == done.payload_poll.empty_polls);
    assert(words[38] == done.payload_poll.send_jfc_poll_calls);
    assert(words[39] == done.payload_poll.send_jfc_empty_polls);
    assert(words[40] == done.payload_poll.recv_jfc_poll_calls);
    assert(words[41] == done.payload_poll.recv_jfc_empty_polls);
    assert(words[42] == done.bytes_received);
}

} // verus!
