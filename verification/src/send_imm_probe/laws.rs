//! What a probe of sends with an immediate value takes, and what it reports.

use vstd::prelude::*;

use super::{
    all_expected, at_least, child_fields, identity_of, parent_fields, payload_of, sender_error,
    ImmEventView, ProbeView,
};
use crate::bytes;
use crate::completion::CompletionStats;
use crate::json;
use crate::text;

verus! {

/// A probe takes an event exactly where it is a receive with an immediate value that is still waited
/// for, with the payload of that message, in a slot that has not completed before.
pub proof fn events_are_taken_exactly_when(probe: ProbeView, event: ImmEventView)
    ensures
        probe.refusal(event) is None <==> (event matches ImmEventView::Received {
            slot,
            bytes,
            imm_data,
        } && (imm_data matches Some(identity) && probe.expected.contains_key(identity) && bytes
            == payload_of(probe.expected[identity] as nat, identity) && !probe.slots.contains(slot))),
{
}

/// A message that arrived takes its slot and is not waited for any more; all others are.
pub proof fn arrivals_take_their_slot(probe: ProbeView, slot: usize, identity: u64, other: u64)
    ensures
        ({
            let after = probe.after(slot, identity);
            &&& after.count == probe.count
            &&& after.slots == probe.slots.insert(slot)
            &&& !after.expected.contains_key(identity)
            &&& other != identity ==> after.expected.contains_key(other)
                == probe.expected.contains_key(other)
            &&& other != identity && probe.expected.contains_key(other) ==> after.expected[other]
                == probe.expected[other]
        }),
{
}

/// A probe waits at its start for every message that belongs to it, each under its own identity, and
/// for no other.
pub proof fn probes_wait_for_every_message(count: nat, ordinal: nat, identity: u64)
    requires
        count <= 4096,
    ensures
        ordinal < count ==> all_expected(count).contains_key(identity_of(ordinal)),
        all_expected(count).contains_key(identity) ==> {
            &&& all_expected(count)[identity] < count
            &&& identity_of(all_expected(count)[identity] as nat) == identity
        },
    decreases count,
{
    if count > 0 {
        probes_wait_for_every_message((count - 1) as nat, ordinal, identity);
    }
}

/// A payload names its message: the identity and the ordinal stand at fixed places in its 64 bytes.
pub proof fn payloads_name_their_message(ordinal: nat, identity: u64)
    requires
        ordinal <= u32::MAX,
    ensures
        ({
            let payload = payload_of(ordinal, identity);
            &&& payload.len() == 64
            &&& payload.take(8) == text::utf8("DFURMAIM"@)
            &&& bytes::be_value(payload.subrange(8, 16)) == identity
            &&& bytes::be_value(payload.subrange(16, 20)) == ordinal
        }),
{
    reveal_strlit("DFURMAIM");
    assert(vstd::utf8::is_ascii_chars("DFURMAIM"@));
    vstd::utf8::is_ascii_chars_encode_utf8("DFURMAIM"@);
    let payload = payload_of(ordinal, identity);
    bytes::lemma_be_bounds();
    bytes::lemma_be(identity as nat, 8);
    bytes::lemma_be(ordinal, 4);
    vstd::arithmetic::div_mod::lemma_small_mod(ordinal, 0x1_0000_0000);
    assert(text::utf8("DFURMAIM"@).len() == 8);
    assert(payload.take(8) =~= text::utf8("DFURMAIM"@));
    assert(payload.subrange(8, 16) =~= bytes::be(identity as nat, 8));
    assert(payload.subrange(16, 20) =~= bytes::be(ordinal, 4));
}

/// A sender's run has succeeded exactly where the receiver acknowledged it, every message was retired
/// and no completion failed.
pub proof fn senders_succeed_exactly_when(ack: Seq<u8>, stats: CompletionStats, count: nat)
    ensures
        sender_error(ack, stats, count) is None <==> {
            &&& ack == text::utf8("SEND_IMM_PROBE_ACK"@)
            &&& stats.send_retired == count
            &&& stats.cqe_error == 0
        },
{
}

/// A depth is what was asked for, and never less than what is needed.
pub proof fn depths_are_large_enough(depth: u32, least: u32)
    ensures
        at_least(depth, least) >= depth,
        at_least(depth, least) >= least,
        at_least(depth, least) == depth || at_least(depth, least) == least,
{
}

/// The reports hold what was sent and counted, each under its own name.
pub proof fn send_imm_reports_name_their_values(count: nat, seen: nat, stats: CompletionStats)
    ensures
        ({
            let fields = parent_fields(count, seen, stats);
            &&& fields.len() == 11
            &&& fields.contains(("state"@, json::string("passed"@)))
            &&& fields.contains(("role"@, json::string("parent"@)))
            &&& fields.contains(("transportMode"@, json::string("RC"@)))
            &&& fields.contains(("opcode"@, json::string("SEND_WITH_IMM"@)))
            &&& fields.contains(("messages"@, text::decimal(count)))
            &&& fields.contains(("distinctImmediate"@, text::decimal(seen)))
            &&& fields.contains(("distinctRxSlots"@, text::decimal(seen)))
            &&& fields.contains(("full64BitIdentity"@, "true"@))
            &&& fields.contains(("payloadBinding"@, "true"@))
            &&& fields.contains(("recvCqe"@, text::decimal(stats.recv_cqe as nat)))
            &&& fields.contains(("cqeErrors"@, text::decimal(stats.cqe_error as nat)))
        }),
        ({
            let fields = child_fields(count, stats);
            &&& fields.len() == 7
            &&& fields.contains(("state"@, json::string("passed"@)))
            &&& fields.contains(("role"@, json::string("child"@)))
            &&& fields.contains(("transportMode"@, json::string("RC"@)))
            &&& fields.contains(("opcode"@, json::string("SEND_IMM"@)))
            &&& fields.contains(("messages"@, text::decimal(count)))
            &&& fields.contains(("sendRetired"@, text::decimal(stats.send_retired as nat)))
            &&& fields.contains(("cqeErrors"@, text::decimal(stats.cqe_error as nat)))
        }),
{
    let parent = parent_fields(count, seen, stats);
    assert(parent[0].0 == "state"@ && parent[1].0 == "role"@ && parent[2].0 == "transportMode"@);
    assert(parent[3].0 == "opcode"@ && parent[4].0 == "messages"@);
    assert(parent[5].0 == "distinctImmediate"@ && parent[6].0 == "distinctRxSlots"@);
    assert(parent[7].0 == "full64BitIdentity"@ && parent[8].0 == "payloadBinding"@);
    assert(parent[9].0 == "recvCqe"@ && parent[10].0 == "cqeErrors"@);
    let child = child_fields(count, stats);
    assert(child[0].0 == "state"@ && child[1].0 == "role"@ && child[2].0 == "transportMode"@);
    assert(child[3].0 == "opcode"@ && child[4].0 == "messages"@ && child[5].0 == "sendRetired"@);
    assert(child[6].0 == "cqeErrors"@);
}

} // verus!
