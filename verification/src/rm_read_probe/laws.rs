//! Which probes run, what they read, and what they report.

use vstd::prelude::*;

use super::{
    announced_error, capability_error, flags_in_order, manifest_parse, manifest_wire,
    ReadCapability, ReadCompletion, ReadDescriptorView, ReadsView, RmReadProbeConfig,
    RmReadProbeReport,
};
use crate::bytes;
use crate::json;
use crate::text;

verus! {

/// A provider runs a probe exactly where it has the reliable message mode, reads, and gathers, its
/// queues are deep enough, and the destination, where there is one, can be counted.
pub proof fn providers_run_probes_exactly_when(
    config: RmReadProbeConfig,
    capability: ReadCapability,
    needs_destination: bool,
)
    ensures
        capability_error(config, capability, needs_destination) is None <==> {
            &&& capability.transport_modes % 2 == 1
            &&& capability.max_read_size > 0
            &&& capability.max_jfs_sge > 0
            &&& capability.max_jfs_rsge > 0
            &&& config.queue_depth <= capability.max_jfs_depth
            &&& needs_destination ==> config.transfer_bytes <= u32::MAX
        },
{
}

/// A child takes what its parent announces exactly where it is what it was configured with, the
/// exported memory is that long, and one read takes a chunk.
pub proof fn announcements_are_taken_exactly_when(
    config: RmReadProbeConfig,
    transfer_bytes: nat,
    chunk_bytes: nat,
    descriptor_length: u64,
    max_read_size: u32,
)
    ensures
        announced_error(config, transfer_bytes, chunk_bytes, descriptor_length, max_read_size)
            is None <==> {
            &&& transfer_bytes == config.transfer_bytes
            &&& chunk_bytes == config.chunk_bytes
            &&& descriptor_length == config.transfer_bytes
            &&& config.chunk_bytes <= max_read_size
        },
{
}

/// A descriptor has each of its numbers at its own place, and is read only where it is what would be
/// written.
pub proof fn read_descriptors_are_laid_out(descriptor: ReadDescriptorView, input: Seq<u8>)
    requires
        descriptor.eid.len() == 16,
    ensures
        ({
            let wire = descriptor.wire();
            &&& wire.len() == 52
            &&& bytes::be_value(wire.subrange(0, 4)) == descriptor.version
            &&& wire.subrange(4, 20) == descriptor.eid
            &&& bytes::be_value(wire.subrange(20, 24)) == descriptor.uasid
            &&& bytes::be_value(wire.subrange(24, 32)) == descriptor.va
            &&& bytes::be_value(wire.subrange(32, 40)) == descriptor.length
            &&& bytes::be_value(wire.subrange(40, 44)) == descriptor.token_id
            &&& bytes::be_value(wire.subrange(44, 48)) == descriptor.access
            &&& bytes::be_value(wire.subrange(48, 52)) == descriptor.token_policy
        }),
        ReadDescriptorView::parse(input) is Ok <==> input.len() == 52,
        ReadDescriptorView::parse(input) matches Ok(read) ==> read.wire() == input,
{
    let wire = descriptor.wire();
    bytes::lemma_be_bounds();
    bytes::lemma_be(descriptor.version as nat, 4);
    bytes::lemma_be(descriptor.uasid as nat, 4);
    bytes::lemma_be(descriptor.va as nat, 8);
    bytes::lemma_be(descriptor.length as nat, 8);
    bytes::lemma_be(descriptor.token_id as nat, 4);
    bytes::lemma_be(descriptor.access as nat, 4);
    bytes::lemma_be(descriptor.token_policy as nat, 4);
    assert(wire.subrange(0, 4) =~= bytes::be(descriptor.version as nat, 4));
    assert(wire.subrange(4, 20) =~= descriptor.eid);
    assert(wire.subrange(20, 24) =~= bytes::be(descriptor.uasid as nat, 4));
    assert(wire.subrange(24, 32) =~= bytes::be(descriptor.va as nat, 8));
    assert(wire.subrange(32, 40) =~= bytes::be(descriptor.length as nat, 8));
    assert(wire.subrange(40, 44) =~= bytes::be(descriptor.token_id as nat, 4));
    assert(wire.subrange(44, 48) =~= bytes::be(descriptor.access as nat, 4));
    assert(wire.subrange(48, 52) =~= bytes::be(descriptor.token_policy as nat, 4));
    if input.len() == 52 {
        bytes::lemma_be_of_value(input.subrange(0, 4));
        bytes::lemma_be_of_value(input.subrange(20, 24));
        bytes::lemma_be_of_value(input.subrange(24, 32));
        bytes::lemma_be_of_value(input.subrange(32, 40));
        bytes::lemma_be_of_value(input.subrange(40, 44));
        bytes::lemma_be_of_value(input.subrange(44, 48));
        bytes::lemma_be_of_value(input.subrange(48, 52));
        assert(input =~= input.subrange(0, 4) + input.subrange(4, 20) + input.subrange(20, 24)
            + input.subrange(24, 32) + input.subrange(32, 40) + input.subrange(40, 44)
            + input.subrange(44, 48) + input.subrange(48, 52));
    }
}

/// A manifest has its version, the two lengths and the digest at fixed places, and is read only where
/// it is what would be written.
pub proof fn manifests_are_laid_out(
    transfer_bytes: u64,
    chunk_bytes: u32,
    digest: Seq<u8>,
    input: Seq<u8>,
)
    requires
        digest.len() == 32,
    ensures
        ({
            let wire = manifest_wire(transfer_bytes as nat, chunk_bytes as nat, digest);
            &&& wire.len() == 48
            &&& bytes::be_value(wire.subrange(0, 4)) == 1
            &&& bytes::be_value(wire.subrange(4, 12)) == transfer_bytes
            &&& bytes::be_value(wire.subrange(12, 16)) == chunk_bytes
            &&& wire.subrange(16, 48) == digest
        }),
        manifest_parse(input) matches Ok((transfer, chunk, read)) ==> manifest_wire(
            transfer,
            chunk,
            read,
        ) == input,
{
    let wire = manifest_wire(transfer_bytes as nat, chunk_bytes as nat, digest);
    bytes::lemma_be_bounds();
    bytes::lemma_be(1, 4);
    bytes::lemma_be(transfer_bytes as nat, 8);
    bytes::lemma_be(chunk_bytes as nat, 4);
    assert(wire.subrange(0, 4) =~= bytes::be(1, 4));
    assert(wire.subrange(4, 12) =~= bytes::be(transfer_bytes as nat, 8));
    assert(wire.subrange(12, 16) =~= bytes::be(chunk_bytes as nat, 4));
    assert(wire.subrange(16, 48) =~= digest);
    if manifest_parse(input) is Ok {
        bytes::lemma_be_of_value(input.subrange(0, 4));
        bytes::lemma_be_of_value(input.subrange(4, 12));
        bytes::lemma_be_of_value(input.subrange(12, 16));
        assert(input =~= input.subrange(0, 4) + input.subrange(4, 12) + input.subrange(12, 16)
            + input.subrange(16, 48));
    }
}

/// The next read starts where the one before it ended, is a whole chunk but for the last, lies in the
/// transfer, and is there exactly while reads are left and the queue has room.
pub proof fn reads_follow_each_other(reads: ReadsView)
    requires
        reads.wf(),
        reads.transfer_bytes <= u64::MAX,
        reads.next < u64::MAX,
    ensures
        reads.upcoming() is Some <==> reads.next * reads.chunk_bytes < reads.transfer_bytes
            && reads.owners.len() < reads.depth,
        reads.upcoming() matches Some(post) ==> {
            &&& post.offset == reads.next * reads.chunk_bytes
            &&& post.offset + post.length <= reads.transfer_bytes
            &&& 0 < post.length <= reads.chunk_bytes
            &&& post.length == reads.chunk_bytes || post.offset + post.length == reads.transfer_bytes
            &&& post.user_ctx == reads.next + 1
            &&& !reads.owners.contains(post.user_ctx)
        },
{
    let total = reads.transfer_bytes as int;
    let chunk = reads.chunk_bytes as int;
    let count = reads.expected() as int;
    let next = reads.next as int;
    crate::benchmark::chunks_cover_the_transfer(reads.transfer_bytes, reads.chunk_bytes);
    assert((next < count <==> next * chunk < total) && 0 <= next * chunk) by (nonlinear_arith)
        requires
            chunk > 0,
            total > 0,
            0 <= next <= count,
            total <= count * chunk,
            count > 0 && (count - 1) * chunk < total,
    ;
}

/// A completion is taken exactly where it is a good one of a read that is outstanding; it then retires
/// that read and no other, once.
pub proof fn completions_retire_their_read(reads: ReadsView, record: ReadCompletion)
    requires
        reads.wf(),
    ensures
        reads.completion_error(record) is None <==> {
            &&& record.status == 0
            &&& !record.is_recv
            &&& record.user_ctx_valid
            &&& record.event_kind == 0
            &&& reads.owners.contains(record.user_ctx)
        },
        ({
            let after = reads.after_completion(record);
            &&& after.next == reads.next
            &&& after.transfer_bytes == reads.transfer_bytes
            &&& after.chunk_bytes == reads.chunk_bytes
            &&& reads.completion_error(record) is None ==> {
                &&& after.completed == reads.completed + 1
                &&& after.owners == reads.owners.remove(record.user_ctx)
                &&& after.completion_error(record) is Some
            }
            &&& reads.completion_error(record) is Some ==> {
                &&& after.completed == reads.completed
                &&& after.owners == reads.owners
            }
            &&& after.seen.opcodes == reads.seen.opcodes.insert(record.opcode)
            &&& after.seen.lengths == reads.seen.lengths.insert(record.completion_len)
            &&& after.seen.local_ids == reads.seen.local_ids.insert(record.local_id)
            &&& after.seen.is_jetty == reads.seen.is_jetty.insert(record.is_jetty)
            &&& after.seen.remote_id_valid == reads.seen.remote_id_valid.insert(
                record.remote_id_valid,
            )
            &&& after.seen.imm_data_valid == reads.seen.imm_data_valid.insert(record.imm_data_valid)
        }),
{
}

/// Truth values are listed each once, `false` before `true`.
pub proof fn flags_are_listed_once(values: Set<bool>, value: bool)
    ensures
        flags_in_order(values).contains(value) <==> values.contains(value),
        flags_in_order(values).no_duplicates(),
        flags_in_order(values).len() == 2 ==> !flags_in_order(values)[0] && flags_in_order(
            values,
        )[1],
{
    let listed = flags_in_order(values);
    if values.contains(value) {
        if value {
            assert(listed.last());
            assert(listed[listed.len() - 1] == value);
        } else {
            assert(listed[0] == value);
        }
    }
}

/// The report holds what the probe was and saw, each under its own name.
pub proof fn probe_reports_name_their_values(report: RmReadProbeReport)
    ensures
        ({
            let fields = report.json_fields();
            &&& fields.len() == 20
            &&& fields.contains(("state"@, json::string("passed"@)))
            &&& fields.contains(("role"@, json::string(report.role@)))
            &&& fields.contains(("transportMode"@, json::string("RM"@)))
            &&& fields.contains(("tpType"@, json::string("RTP"@)))
            &&& fields.contains(("transferBytes"@, text::decimal(report.transfer_bytes as nat)))
            &&& fields.contains(("chunkBytes"@, text::decimal(report.chunk_bytes as nat)))
            &&& fields.contains(("completions"@, text::decimal(report.completions as nat)))
            &&& fields.contains(("maxReadSize"@, text::decimal(report.max_read_size as nat)))
            &&& report.busy_unimport_status matches Some(status) ==> fields.contains(
                ("busyUnimportStatus"@, text::signed_decimal(status as int)),
            )
            &&& report.busy_unimport_status is None ==> fields.contains(
                ("busyUnimportStatus"@, "null"@),
            )
            &&& fields.contains(("opcodes"@, super::number_list(report.opcodes@)))
            &&& fields.contains(
                ("completionLengths"@, super::number_list(report.completion_lengths@)),
            )
            &&& fields.contains(("localIds"@, super::number_list(report.local_ids@)))
            &&& fields.contains(("isRecv"@, "false"@))
            &&& fields.contains(("userCtxValid"@, "true"@))
            &&& fields.contains(("isJettyValues"@, super::flag_list(report.is_jetty_values@)))
            &&& fields.contains(
                ("remoteIdValidValues"@, super::flag_list(report.remote_id_valid_values@)),
            )
            &&& fields.contains(
                ("immDataValidValues"@, super::flag_list(report.imm_data_valid_values@)),
            )
            &&& fields.contains(
                ("contentVerified"@, if report.content_verified { "true"@ } else { "false"@ }),
            )
            &&& fields.contains(
                ("ownersRetired"@, if report.owners_retired { "true"@ } else { "false"@ }),
            )
            &&& fields.contains(
                ("cleanShutdown"@, if report.clean_shutdown { "true"@ } else { "false"@ }),
            )
        }),
{
    let fields = report.json_fields();
    assert(fields[0].0 == "state"@ && fields[1].0 == "role"@ && fields[2].0 == "transportMode"@);
    assert(fields[3].0 == "tpType"@ && fields[4].0 == "transferBytes"@);
    assert(fields[5].0 == "chunkBytes"@ && fields[6].0 == "completions"@);
    assert(fields[7].0 == "maxReadSize"@ && fields[8].0 == "busyUnimportStatus"@);
    assert(fields[9].0 == "opcodes"@ && fields[10].0 == "completionLengths"@);
    assert(fields[11].0 == "localIds"@ && fields[12].0 == "isRecv"@);
    assert(fields[13].0 == "userCtxValid"@ && fields[14].0 == "isJettyValues"@);
    assert(fields[15].0 == "remoteIdValidValues"@ && fields[16].0 == "immDataValidValues"@);
    assert(fields[17].0 == "contentVerified"@ && fields[18].0 == "ownersRetired"@);
    assert(fields[19].0 == "cleanShutdown"@);
}

} // verus!
