//! The file transfer and the ping-pong of the demonstration programs.

use vstd::prelude::*;

use crate::completion::CompletionStats;
use crate::error::ErrorView;
use crate::json;
use crate::json::JsonObject;
use crate::message::{Message, MessageBody, MessageBodyView, MessageView};
use crate::sha256;
use crate::text;
use crate::transfer;
use crate::transfer::{PhaseView, ReceiveView, TransferSummary};

pub mod laws;

verus! {

/// The usage of the sending program.
pub const PARENT_USAGE: &'static str =
    "usage: parent DEVICE ADDRESS INPUT_FILE | --ping-pong [ROUNDS]";

/// The usage of the receiving program.
pub const CHILD_USAGE: &'static str =
    "usage: child DEVICE ADDRESS OUTPUT_FILE | --ping-pong [ROUNDS]";

/// The request that the receiving program makes.
pub const REQUEST_ID: u64 = 1;

/// Whether a message asks for a file.
pub open spec fn asks_for_a_file(message: MessageView) -> bool {
    message.body is Request && message.request_id != 0 && message.sequence == 0
}

/// The sending side of one file transfer.
pub struct FileSender {
    request_id: u64,
    sequence: u32,
}

/// What a sender knows.
pub struct SenderView {
    pub request_id: u64,
    /// How many payloads were sent.
    pub sequence: u32,
}

impl View for FileSender {
    type V = SenderView;

    closed spec fn view(&self) -> SenderView {
        SenderView { request_id: self.request_id, sequence: self.sequence }
    }
}

impl SenderView {
    /// The announcement of a file.
    pub open spec fn metadata(self, total_length: u64, digest: Seq<u8>) -> MessageView {
        MessageView {
            request_id: self.request_id,
            sequence: 0,
            body: MessageBodyView::Metadata { offset: 0, total_length, digest },
        }
    }

    /// The message that carries the next piece.
    pub open spec fn data(self, payload: Seq<u8>) -> MessageView {
        MessageView {
            request_id: self.request_id,
            sequence: self.sequence,
            body: MessageBodyView::Data(payload),
        }
    }

    /// The message that ends the transfer.
    pub open spec fn end(self, total_length: u64) -> MessageView {
        MessageView {
            request_id: self.request_id,
            sequence: self.sequence,
            body: MessageBodyView::End { total_length, chunk_count: self.sequence },
        }
    }
}

impl FileSender {
    /// A sender that answers a request.
    pub fn answer(request: &Message) -> (sender: core::result::Result<Self, String>)
        ensures
            match sender {
                Ok(sender) => {
                    &&& asks_for_a_file(request@)
                    &&& sender@ == (SenderView { request_id: request@.request_id, sequence: 0 })
                },
                Err(detail) => !asks_for_a_file(request@) && detail@ == "expected valid Request"@,
            },
    {
        match &request.body {
            MessageBody::Request { task_id: _, piece_number: _ } => {
                if request.request_id != 0 && request.sequence == 0 {
                    return Ok(FileSender { request_id: request.request_id, sequence: 0 });
                }
            },
            _ => {},
        }
        Err("expected valid Request".to_owned())
    }

    /// The announcement of a file.
    pub fn metadata(&self, total_length: u64, digest: [u8; 32]) -> (message: Message)
        ensures
            message@ == self@.metadata(total_length, digest@),
    {
        Message::metadata(self.request_id, 0, total_length, digest)
    }

    /// The message that carries the next piece.
    pub fn data(&self, payload: Vec<u8>) -> (message: Message)
        ensures
            message@ == self@.data(payload@),
    {
        Message::data(self.request_id, self.sequence, payload)
    }

    /// Counts a piece that was sent.
    pub fn sent(&mut self) -> (counted: core::result::Result<(), String>)
        ensures
            match counted {
                Ok(()) => final(self)@ == (SenderView {
                    sequence: (old(self)@.sequence + 1) as u32,
                    ..old(self)@
                }) && old(self)@.sequence < u32::MAX,
                Err(detail) => {
                    &&& old(self)@.sequence == u32::MAX
                    &&& detail@ == "Data sequence overflow"@
                    &&& final(self)@ == old(self)@
                },
            },
    {
        if self.sequence == u32::MAX {
            return Err("Data sequence overflow".to_owned());
        }
        self.sequence = self.sequence + 1;
        Ok(())
    }

    /// The message that ends the transfer.
    pub fn end(&self, total_length: u64) -> (message: Message)
        ensures
            message@ == self@.end(total_length),
    {
        Message::end(self.request_id, self.sequence, total_length)
    }

    /// How many pieces were sent.
    pub fn sequence(&self) -> (sequence: u32)
        ensures
            sequence == self@.sequence,
    {
        self.sequence
    }
}

/// Whether the receive slot of a message is posted again before the message is taken in.
pub fn reposts(message: &Message) -> (again: bool)
    ensures
        again == (message@.body is Metadata || message@.body is Data),
{
    match &message.body {
        MessageBody::Metadata { offset: _, total_length: _, digest: _ } => true,
        MessageBody::Data(_) => true,
        _ => false,
    }
}

/// Whether another ping-pong round follows, for which a receive is posted.
pub fn another_round(round: u32, rounds: u32) -> (another: bool)
    requires
        round < rounds,
    ensures
        another == (round + 1 < rounds),
{
    round + 1 < rounds
}

/// The members of the report of the sending side.
pub open spec fn parent_fields(
    total_length: u64,
    data_messages: u32,
    stats: CompletionStats,
    elapsed_us: u64,
) -> Seq<(Seq<char>, Seq<char>)> {
    seq![
        ("role"@, json::string("parent"@)),
        ("bytes"@, text::decimal(total_length as nat)),
        ("data_messages"@, text::decimal(data_messages as nat)),
        ("send_post"@, text::decimal(stats.send_post as nat)),
        ("send_cqe"@, text::decimal(stats.send_cqe as nat)),
        ("recv_cqe"@, text::decimal(stats.recv_cqe as nat)),
        ("digest_ok"@, json::boolean(true)),
        ("elapsed_us"@, text::decimal(elapsed_us as nat)),
    ]
}

/// The report of the sending side.
pub fn parent_report(
    total_length: u64,
    data_messages: u32,
    stats: CompletionStats,
    elapsed_us: u64,
) -> (line: String)
    ensures
        line@ == json::object(parent_fields(total_length, data_messages, stats, elapsed_us)),
{
    let mut object = JsonObject::new();
    object.text("role", "parent");
    object.number("bytes", total_length);
    object.number("data_messages", data_messages as u64);
    object.number("send_post", stats.send_post);
    object.number("send_cqe", stats.send_cqe);
    object.number("recv_cqe", stats.recv_cqe);
    object.flag("digest_ok", true);
    object.number("elapsed_us", elapsed_us);
    assert(object@ =~= parent_fields(total_length, data_messages, stats, elapsed_us));
    object.finish()
}

/// The members of the report of the receiving side.
pub open spec fn child_fields(summary: TransferSummary, stats: CompletionStats, elapsed_us: u64) -> Seq<
    (Seq<char>, Seq<char>),
> {
    seq![
        ("role"@, json::string("child"@)),
        ("bytes"@, text::decimal(summary.bytes as nat)),
        ("data_messages"@, text::decimal(summary.data_messages as nat)),
        ("send_post"@, text::decimal(stats.send_post as nat)),
        ("send_cqe"@, text::decimal(stats.send_cqe as nat)),
        ("recv_cqe"@, text::decimal(stats.recv_cqe as nat)),
        ("length_ok"@, json::boolean(true)),
        ("digest_ok"@, json::boolean(true)),
        ("elapsed_us"@, text::decimal(elapsed_us as nat)),
    ]
}

/// The report of the receiving side.
pub fn child_report(summary: &TransferSummary, stats: CompletionStats, elapsed_us: u64) -> (line:
    String)
    ensures
        line@ == json::object(child_fields(*summary, stats, elapsed_us)),
{
    let mut object = JsonObject::new();
    object.text("role", "child");
    object.number("bytes", summary.bytes);
    object.number("data_messages", summary.data_messages as u64);
    object.number("send_post", stats.send_post);
    object.number("send_cqe", stats.send_cqe);
    object.number("recv_cqe", stats.recv_cqe);
    object.flag("length_ok", true);
    object.flag("digest_ok", true);
    object.number("elapsed_us", elapsed_us);
    assert(object@ =~= child_fields(*summary, stats, elapsed_us));
    object.finish()
}

/// The members of the report of a ping-pong.
pub open spec fn ping_pong_fields(role: Seq<char>, rounds: u32, stats: CompletionStats) -> Seq<
    (Seq<char>, Seq<char>),
> {
    seq![
        ("role"@, json::string(role)),
        ("rounds"@, text::decimal(rounds as nat)),
        ("send_post"@, text::decimal(stats.send_post as nat)),
        ("send_cqe"@, text::decimal(stats.send_cqe as nat)),
        ("recv_cqe"@, text::decimal(stats.recv_cqe as nat)),
        ("payload_ok"@, json::boolean(true)),
    ]
}

/// The report of a ping-pong.
pub fn ping_pong_report(role: &str, rounds: u32, stats: CompletionStats) -> (line: String)
    ensures
        line@ == json::object(ping_pong_fields(role@, rounds, stats)),
{
    let mut object = JsonObject::new();
    object.text("role", role);
    object.number("rounds", rounds as u64);
    object.number("send_post", stats.send_post);
    object.number("send_cqe", stats.send_cqe);
    object.number("recv_cqe", stats.recv_cqe);
    object.flag("payload_ok", true);
    assert(object@ =~= ping_pong_fields(role@, rounds, stats));
    object.finish()
}

/// The messages of a transfer, in the order in which they are sent.
pub open spec fn sent_messages(request_id: u64, pieces: Seq<Seq<u8>>) -> Seq<MessageView> {
    let file = transfer::whole(pieces);
    let first = SenderView { request_id, sequence: 0 };
    let last = SenderView { request_id, sequence: pieces.len() as u32 };
    seq![first.metadata(file.len() as u64, sha256::sha256(file))] + Seq::new(
        pieces.len(),
        |i: int| (SenderView { request_id, sequence: i as u32 }).data(pieces[i]),
    ) + seq![last.end(file.len() as u64)]
}

/// A receiver takes all the messages of a transfer, in the order in which the sender makes them,
/// and is then complete: what it received is the file, whatever the pieces that it was cut into.
pub proof fn transfers_deliver_the_file(request_id: u64, pieces: Seq<Seq<u8>>)
    requires
        pieces.len() <= u32::MAX,
        transfer::whole(pieces).len() <= u64::MAX,
    ensures
        transfer::taken(ReceiveView::fresh(request_id), sent_messages(request_id, pieces)) == Ok::<
            ReceiveView,
            ErrorView,
        >(
            ReceiveView {
                request_id,
                phase: PhaseView::Complete,
                next_sequence: pieces.len() as u32,
                received: transfer::whole(pieces),
            },
        ),
{
    let file = transfer::whole(pieces);
    let length = file.len() as u64;
    let digest = sha256::sha256(file);
    let messages = sent_messages(request_id, pieces);
    transfer::openings_are_taken_up_to_the_advertised_length(request_id, length, digest, pieces);
    transfer::transfers_end_exactly_as_advertised(
        request_id,
        length,
        digest,
        pieces,
        pieces.len() as u32,
        length,
    );
    assert(messages.drop_last() =~= transfer::opening(request_id, length, digest, pieces));
    assert(messages.last() == transfer::ending(request_id, pieces.len() as u32, length));
}

} // verus!
