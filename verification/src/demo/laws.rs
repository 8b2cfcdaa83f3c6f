//! What the demonstration programs send and report.

use vstd::prelude::*;

use super::{child_fields, parent_fields, ping_pong_fields, sent_messages};
use crate::completion::CompletionStats;
use crate::json;
use crate::message::{MessageBodyView, MessageView};
use crate::sha256;
use crate::text;
use crate::transfer;
use crate::transfer::TransferSummary;

verus! {

/// A file is asked for by a request with a number of its own, which comes first.
pub proof fn files_are_asked_for_exactly_when(message: MessageView)
    ensures
        super::asks_for_a_file(message) <==> message.body is Request && message.request_id > 0
            && message.sequence == 0,
{
}

/// A file is sent as metadata with its length and its digest, then its pieces in order, each numbered
/// by the one before, then an end that counts them; all under one request.
pub proof fn files_are_sent_in_order(request_id: u64, pieces: Seq<Seq<u8>>, k: int)
    requires
        pieces.len() <= u32::MAX,
        transfer::whole(pieces).len() <= u64::MAX,
        0 <= k < pieces.len() + 2,
    ensures
        ({
            let sent = sent_messages(request_id, pieces);
            let file = transfer::whole(pieces);
            &&& sent.len() == pieces.len() + 2
            &&& sent[k].request_id == request_id
            &&& k == 0 ==> sent[k].sequence == 0 && (sent[k].body matches MessageBodyView::Metadata {
                offset,
                total_length,
                digest,
            } && offset == 0 && total_length == file.len() && digest == sha256::sha256(file))
            &&& 0 < k <= pieces.len() ==> sent[k].sequence == k - 1 && sent[k].body
                == MessageBodyView::Data(pieces[k - 1])
            &&& k == pieces.len() + 1 ==> sent[k].sequence == pieces.len() && (
            sent[k].body matches MessageBodyView::End { total_length, chunk_count } && total_length
                == file.len() && chunk_count == pieces.len())
        }),
{
}

/// The reports hold what was moved and counted, each under its own name.
pub proof fn reports_name_their_values(
    total_length: u64,
    data_messages: u32,
    summary: TransferSummary,
    role: Seq<char>,
    rounds: u32,
    stats: CompletionStats,
    elapsed_us: u64,
)
    ensures
        ({
            let fields = parent_fields(total_length, data_messages, stats, elapsed_us);
            &&& fields.len() == 8
            &&& fields.contains(("role"@, json::string("parent"@)))
            &&& fields.contains(("bytes"@, text::decimal(total_length as nat)))
            &&& fields.contains(("data_messages"@, text::decimal(data_messages as nat)))
            &&& fields.contains(("send_post"@, text::decimal(stats.send_post as nat)))
            &&& fields.contains(("send_cqe"@, text::decimal(stats.send_cqe as nat)))
            &&& fields.contains(("recv_cqe"@, text::decimal(stats.recv_cqe as nat)))
            &&& fields.contains(("digest_ok"@, "true"@))
            &&& fields.contains(("elapsed_us"@, text::decimal(elapsed_us as nat)))
        }),
        ({
            let fields = child_fields(summary, stats, elapsed_us);
            &&& fields.len() == 9
            &&& fields.contains(("role"@, json::string("child"@)))
            &&& fields.contains(("bytes"@, text::decimal(summary.bytes as nat)))
            &&& fields.contains(("data_messages"@, text::decimal(summary.data_messages as nat)))
            &&& fields.contains(("send_post"@, text::decimal(stats.send_post as nat)))
            &&& fields.contains(("send_cqe"@, text::decimal(stats.send_cqe as nat)))
            &&& fields.contains(("recv_cqe"@, text::decimal(stats.recv_cqe as nat)))
            &&& fields.contains(("length_ok"@, "true"@))
            &&& fields.contains(("digest_ok"@, "true"@))
            &&& fields.contains(("elapsed_us"@, text::decimal(elapsed_us as nat)))
        }),
        ({
            let fields = ping_pong_fields(role, rounds, stats);
            &&& fields.len() == 6
            &&& fields.contains(("role"@, json::string(role)))
            &&& fields.contains(("rounds"@, text::decimal(rounds as nat)))
            &&& fields.contains(("send_post"@, text::decimal(stats.send_post as nat)))
            &&& fields.contains(("send_cqe"@, text::decimal(stats.send_cqe as nat)))
            &&& fields.contains(("recv_cqe"@, text::decimal(stats.recv_cqe as nat)))
            &&& fields.contains(("payload_ok"@, "true"@))
        }),
{
    let parent = parent_fields(total_length, data_messages, stats, elapsed_us);
    assert(parent[0].0 == "role"@ && parent[1].0 == "bytes"@ && parent[2].0 == "data_messages"@);
    assert(parent[3].0 == "send_post"@ && parent[4].0 == "send_cqe"@ && parent[5].0 == "recv_cqe"@);
    assert(parent[6].0 == "digest_ok"@ && parent[7].0 == "elapsed_us"@);
    let child = child_fields(summary, stats, elapsed_us);
    assert(child[0].0 == "role"@ && child[1].0 == "bytes"@ && child[2].0 == "data_messages"@);
    assert(child[3].0 == "send_post"@ && child[4].0 == "send_cqe"@ && child[5].0 == "recv_cqe"@);
    assert(child[6].0 == "length_ok"@ && child[7].0 == "digest_ok"@ && child[8].0 == "elapsed_us"@);
    let rounds_fields = ping_pong_fields(role, rounds, stats);
    assert(rounds_fields[0].0 == "role"@ && rounds_fields[1].0 == "rounds"@);
    assert(rounds_fields[2].0 == "send_post"@ && rounds_fields[3].0 == "send_cqe"@);
    assert(rounds_fields[4].0 == "recv_cqe"@ && rounds_fields[5].0 == "payload_ok"@);
}

} // verus!
