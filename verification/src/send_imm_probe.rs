//! The probe of sends with an immediate value: the identities it sends, the payload that goes with
//! each, and what counts as having received every one exactly once.

use std::collections::{HashMap, HashSet};

use vstd::prelude::*;

use crate::buffer::BufferPoolConfig;
use crate::bytes;
use crate::bytes::{push_bytes, push_u32, push_u64, same_bytes};
use crate::completion::CompletionStats;
use crate::error::{protocol, Error, ErrorView, Result};
use crate::jetty::JettyConfig;
use crate::json;
use crate::json::JsonObject;
use crate::runtime::RuntimeConfig;
use crate::text;
use crate::text::{push_decimal, push_hex, with_hex, with_number, with_numbers, Text};

pub mod laws;

verus! {

pub const SEND_IMM_PROBE_PAYLOAD_LEN: usize = 64;

pub const SEND_IMM_PROBE_MAX_MESSAGES: usize = 4096;

/// What a payload starts with.
pub const MAGIC: &'static str = "DFURMAIM";

/// What the receiver answers once it has everything.
pub const PROBE_ACK: &'static str = "SEND_IMM_PROBE_ACK";

/// The identity of a message: three that exercise both halves of the 64-bit immediate field, followed
/// by four interleaved transfer namespaces.
pub open spec fn identity_of(ordinal: nat) -> u64 {
    if ordinal == 0 {
        0x0000_0001_0000_0002
    } else if ordinal == 1 {
        0x1234_5678_9abc_def0
    } else if ordinal == 2 {
        0xfedc_ba98_7654_3210
    } else {
        ((0x8000_0001 + (ordinal - 3) % 4) * 0x1_0000_0000 + (ordinal - 3) / 4) as u64
    }
}

/// The identity of a message.
pub fn probe_identity(ordinal: usize) -> (identity: Result<u64>)
    ensures
        match identity {
            Ok(identity) => ordinal < 4096 && identity == identity_of(ordinal as nat),
            Err(error) => {
                &&& ordinal >= 4096
                &&& error@ == ErrorView::InvalidConfiguration(
                    "SEND_IMM probe ordinal "@ + text::decimal(ordinal as nat) + " exceeds 4095"@,
                )
            },
        },
{
    if ordinal >= SEND_IMM_PROBE_MAX_MESSAGES {
        return Err(
            Error::InvalidConfiguration(
                with_number("SEND_IMM probe ordinal ", ordinal as u64, " exceeds 4095"),
            ),
        );
    }
    Ok(
        match ordinal {
            0 => 0x0000_0001_0000_0002,
            1 => 0x1234_5678_9abc_def0,
            2 => 0xfedc_ba98_7654_3210,
            _ => {
                let logical: u64 = (ordinal - 3) as u64;
                (0x8000_0001 + logical % 4) * 0x1_0000_0000 + logical / 4
            },
        },
    )
}

/// No two messages share an identity, and none leaves the upper half of the field empty.
pub proof fn identities_are_unique(left: nat, right: nat)
    requires
        left < 4096,
        right < 4096,
    ensures
        identity_of(left) == identity_of(right) ==> left == right,
        identity_of(left) / 0x1_0000_0000 != 0,
{
}

/// The identity turned left by some bits.
pub open spec fn turned(identity: u64, bits: u64) -> u64 {
    (identity << bits) | (identity >> (64 - bits) as u64)
}

/// A filler byte of a payload.
pub open spec fn filler(ordinal: nat, identity: u64, index: nat) -> u8 {
    let part = ((turned(identity, (index % 63 + 1) as u64) >> ((index % 8) * 8) as u64) & 0xff) as u8;
    part ^ ((ordinal % 256) as u8).wrapping_mul(31) ^ (index as u8)
}

/// The payload that goes with a message.
pub open spec fn payload_of(ordinal: nat, identity: u64) -> Seq<u8> {
    text::utf8("DFURMAIM"@) + bytes::be(identity as nat, 8) + bytes::be(
        ordinal % 0x1_0000_0000,
        4,
    ) + Seq::new(44, |i: int| filler(ordinal, identity, i as nat))
}

/// The payload that goes with a message.
pub fn probe_payload(ordinal: usize, identity: u64) -> (payload: Vec<u8>)
    ensures
        payload@ == payload_of(ordinal as nat, identity),
{
    let mut payload: Vec<u8> = Vec::new();
    push_bytes(&mut payload, MAGIC.as_bytes());
    push_u64(&mut payload, identity);
    push_u32(&mut payload, (ordinal as u64 % 0x1_0000_0000) as u32);
    let ghost head = payload@;
    let salt: u8 = ((ordinal % 256) as u8).wrapping_mul(31);
    let mut index: u64 = 0;
    assert(head + Seq::new(0, |i: int| filler(ordinal as nat, identity, i as nat)) =~= head);
    while index < 44
        invariant
            index <= 44,
            salt == ((ordinal as nat % 256) as u8).wrapping_mul(31),
            payload@ == head + Seq::new(
                index as nat,
                |i: int| filler(ordinal as nat, identity, i as nat),
            ),
        decreases 44 - index,
    {
        let bits: u64 = index % 63 + 1;
        let shift: u64 = (index % 8) * 8;
        let turned: u64 = (identity << bits) | (identity >> (64 - bits));
        let part: u64 = (turned >> shift) & 0xff;
        let byte: u8 = part as u8 ^ salt ^ (index as u8);
        payload.push(byte);
        index += 1;
        assert(payload@ =~= head + Seq::new(
            index as nat,
            |i: int| filler(ordinal as nat, identity, i as nat),
        ));
    }
    payload
}

/// Whether a payload is the one that goes with a message.
pub fn validate_probe_payload(ordinal: usize, identity: u64, payload: &[u8]) -> (valid: Result<()>)
    ensures
        match valid {
            Ok(()) => payload@ == payload_of(ordinal as nat, identity),
            Err(error) => {
                &&& payload@ != payload_of(ordinal as nat, identity)
                &&& error@ == ErrorView::Protocol(payload_mismatch(ordinal as nat, identity))
            },
        },
{
    let expected = probe_payload(ordinal, identity);
    if !same_bytes(payload, &expected) {
        let mut detail = "SEND_IMM payload mismatch for ordinal=".to_owned();
        push_decimal(&mut detail, ordinal as u64);
        detail.append(" identity=0x");
        push_hex(&mut detail, identity, 16);
        return Err(Error::Protocol(detail));
    }
    Ok(())
}

/// The text for a payload that does not go with its message.
pub open spec fn payload_mismatch(ordinal: nat, identity: u64) -> Seq<char> {
    "SEND_IMM payload mismatch for ordinal="@ + text::decimal(ordinal) + " identity=0x"@
        + text::hex(identity as nat, 16)
}

/// A payload tells which message it belongs to: equal payloads have one identity and one ordinal.
pub proof fn payloads_bind_their_message(
    ordinal: nat,
    identity: u64,
    other_ordinal: nat,
    other_identity: u64,
)
    requires
        ordinal <= u32::MAX,
        other_ordinal <= u32::MAX,
        payload_of(ordinal, identity) == payload_of(other_ordinal, other_identity),
    ensures
        identity == other_identity,
        ordinal == other_ordinal,
        payload_of(ordinal, identity).len() == 64,
{
    reveal_strlit("DFURMAIM");
    assert(vstd::utf8::is_ascii_chars("DFURMAIM"@));
    vstd::utf8::is_ascii_chars_encode_utf8("DFURMAIM"@);
    let left = payload_of(ordinal, identity);
    let right = payload_of(other_ordinal, other_identity);
    let start = text::utf8("DFURMAIM"@).len() as int;
    bytes::lemma_be_bounds();
    bytes::lemma_be(identity as nat, 8);
    bytes::lemma_be(other_identity as nat, 8);
    bytes::lemma_be(ordinal, 4);
    bytes::lemma_be(other_ordinal, 4);
    assert(left.subrange(start, start + 8) =~= bytes::be(identity as nat, 8));
    assert(right.subrange(start, start + 8) =~= bytes::be(other_identity as nat, 8));
    assert(left.subrange(start + 8, start + 12) =~= bytes::be(ordinal, 4));
    assert(right.subrange(start + 8, start + 12) =~= bytes::be(other_ordinal, 4));
    bytes::lemma_be_injective(identity as nat, other_identity as nat, 8);
    bytes::lemma_be_injective(ordinal, other_ordinal, 4);
}

/// The larger of two depths.
pub open spec fn at_least(depth: u32, least: u32) -> u32 {
    if depth >= least {
        depth
    } else {
        least
    }
}

/// The configuration of a probe of `count` messages.
pub fn probe_configs<T: Text>(device: T, eid_index: u32, count: usize) -> (configs: (
    RuntimeConfig,
    JettyConfig,
))
    requires
        0 < count <= 4096,
    ensures
        configs.0.device_name@ == device.text(),
        configs.0.eid_index == eid_index,
        configs.0.send_jfc_depth == at_least(count as u32, 16),
        configs.0.recv_jfc_depth == at_least(count as u32, 16),
        configs.0.buffer_pool == (BufferPoolConfig {
            slot_size: 64,
            tx_slot_count: count,
            rx_slot_count: count,
            alignment: 4096,
            alias_tx_slots: false,
        }),
        configs.1 == (JettyConfig {
            send_depth: count as u32,
            recv_depth: count as u32,
            max_send_sge: 1,
            max_recv_sge: 1,
            token: 0,
        }),
{
    let depth: u32 = count as u32;
    let queue: u32 = if depth >= 16 {
        depth
    } else {
        16
    };
    let mut runtime = RuntimeConfig::new(device, eid_index);
    runtime.send_jfc_depth = queue;
    runtime.recv_jfc_depth = queue;
    runtime.buffer_pool =
    BufferPoolConfig {
        slot_size: SEND_IMM_PROBE_PAYLOAD_LEN,
        tx_slot_count: count,
        rx_slot_count: count,
        alignment: 4096,
        alias_tx_slots: false,
    };
    let mut jetty = JettyConfig::default();
    jetty.send_depth = depth;
    jetty.recv_depth = depth;
    (runtime, jetty)
}

/// A completion that the receiver of a probe sees.
pub enum ImmEvent {
    /// A receive into a slot, with its immediate value where it has one.
    Received { slot: usize, bytes: Vec<u8>, imm_data: Option<u64> },
    /// A send, which the receiver does not expect.
    Sent,
}

/// An [`ImmEvent`] with its bytes as a sequence.
pub enum ImmEventView {
    Received { slot: usize, bytes: Seq<u8>, imm_data: Option<u64> },
    Sent,
}

impl View for ImmEvent {
    type V = ImmEventView;

    open spec fn view(&self) -> ImmEventView {
        match self {
            ImmEvent::Received { slot, bytes, imm_data } => ImmEventView::Received {
                slot: *slot,
                bytes: bytes@,
                imm_data: *imm_data,
            },
            ImmEvent::Sent => ImmEventView::Sent,
        }
    }
}

/// The messages that a probe waits for at its start: the ordinal of each by its identity.
pub open spec fn all_expected(count: nat) -> Map<u64, usize>
    decreases count,
{
    if count == 0 {
        Map::empty()
    } else {
        all_expected((count - 1) as nat).insert(
            identity_of((count - 1) as nat),
            (count - 1) as usize,
        )
    }
}

proof fn lemma_all_expected(count: nat)
    requires
        count <= 4096,
    ensures
        all_expected(count).dom().finite(),
        all_expected(count).dom().len() == count,
        forall|identity: u64| #[trigger]
            all_expected(count).contains_key(identity) ==> {
                &&& all_expected(count)[identity] < count
                &&& identity_of(all_expected(count)[identity] as nat) == identity
            },
        forall|ordinal: nat|
            ordinal < count ==> all_expected(count).contains_key(#[trigger] identity_of(ordinal)),
    decreases count,
{
    if count > 0 {
        let last = (count - 1) as nat;
        lemma_all_expected(last);
        let earlier = all_expected(last);
        if earlier.contains_key(identity_of(last)) {
            identities_are_unique(earlier[identity_of(last)] as nat, last);
        }
    }
}

/// Which messages a probe waits for, and in which slots the others came.
#[verifier::ext_equal]
pub struct ProbeView {
    /// The number of messages that belong to the probe.
    pub count: nat,
    /// The ordinals of the messages that have not arrived, by their identity.
    pub expected: Map<u64, usize>,
    /// The slots that completed.
    pub slots: Set<usize>,
}

impl ProbeView {
    /// Nothing has arrived.
    pub open spec fn fresh(count: nat) -> Self {
        ProbeView { count, expected: all_expected(count), slots: Set::empty() }
    }

    /// Each arrival took a slot of its own, and each identity is that of its message.
    pub open spec fn wf(self) -> bool {
        &&& 0 < self.count <= 4096
        &&& self.expected.dom().finite()
        &&& self.slots.finite()
        &&& self.slots.len() + self.expected.dom().len() == self.count
        &&& forall|identity: u64| #[trigger]
            self.expected.contains_key(identity) ==> {
                &&& self.expected[identity] < self.count
                &&& identity_of(self.expected[identity] as nat) == identity
            }
    }

    /// Whether a message has arrived.
    pub open spec fn arrived(self, ordinal: nat) -> bool {
        ordinal < self.count && !self.expected.contains_key(identity_of(ordinal))
    }

    /// The probe after the message with an identity arrived in a slot.
    pub open spec fn after(self, slot: usize, identity: u64) -> Self {
        ProbeView {
            expected: self.expected.remove(identity),
            slots: self.slots.insert(slot),
            ..self
        }
    }

    /// Why an event is refused, if it is refused.
    pub open spec fn refusal(self, event: ImmEventView) -> Option<ErrorView> {
        match event {
            ImmEventView::Sent => Some(
                ErrorView::Protocol("receiver observed an unexpected SEND completion"@),
            ),
            ImmEventView::Received { slot, bytes, imm_data } => match imm_data {
                None => Some(
                    ErrorView::Protocol(
                        "probe received ordinary SEND instead of SEND_WITH_IMM"@,
                    ),
                ),
                Some(identity) => if !self.expected.contains_key(identity) {
                    Some(
                        ErrorView::Protocol(
                            "duplicate or unknown SEND_IMM identity 0x"@ + text::hex(
                                identity as nat,
                                16,
                            ) + ""@,
                        ),
                    )
                } else {
                    let ordinal = self.expected[identity] as nat;
                    if bytes != payload_of(ordinal, identity) {
                        Some(ErrorView::Protocol(payload_mismatch(ordinal, identity)))
                    } else if self.slots.contains(slot) {
                        Some(
                            ErrorView::Protocol(
                                "RX slot "@ + text::decimal(slot as nat)
                                    + " completed more than once"@,
                            ),
                        )
                    } else {
                        None
                    }
                },
            },
        }
    }
}

/// The receiving side of a probe.
pub struct ImmProbe {
    count: usize,
    expected: HashMap<u64, usize>,
    slots: HashSet<usize>,
}

impl View for ImmProbe {
    type V = ProbeView;

    closed spec fn view(&self) -> ProbeView {
        ProbeView { count: self.count as nat, expected: self.expected@, slots: self.slots@ }
    }
}

impl ImmProbe {
    /// A probe of which nothing has arrived.
    pub fn new(count: usize) -> (probe: Self)
        requires
            0 < count <= 4096,
        ensures
            probe@.wf(),
            probe@ == ProbeView::fresh(count as nat),
    {
        let mut expected: HashMap<u64, usize> = HashMap::new();
        let mut ordinal: usize = 0;
        while ordinal < count
            invariant
                ordinal <= count <= 4096,
                expected@ == all_expected(ordinal as nat),
            decreases count - ordinal,
        {
            match probe_identity(ordinal) {
                Ok(identity) => {
                    expected.insert(identity, ordinal);
                },
                Err(_) => {},
            }
            ordinal += 1;
        }
        proof {
            lemma_all_expected(count as nat);
        }
        ImmProbe { count, expected, slots: HashSet::new() }
    }

    /// Takes in a completion.
    pub fn take(&mut self, event: ImmEvent) -> (taken: Result<()>)
        requires
            old(self)@.wf(),
        ensures
            final(self)@.wf(),
            match taken {
                Ok(()) => {
                    &&& old(self)@.refusal(event@) is None
                    &&& event@ matches ImmEventView::Received { slot, bytes, imm_data }
                    &&& imm_data matches Some(identity)
                    &&& final(self)@ == old(self)@.after(slot, identity)
                },
                Err(error) => {
                    &&& old(self)@.refusal(event@) == Some(error@)
                    &&& final(self)@ == old(self)@
                },
            },
    {
        match event {
            ImmEvent::Sent => Err(protocol("receiver observed an unexpected SEND completion")),
            ImmEvent::Received { slot, bytes, imm_data } => {
                let identity: u64 = match imm_data {
                    Some(identity) => identity,
                    None => {
                        return Err(
                            protocol("probe received ordinary SEND instead of SEND_WITH_IMM"),
                        );
                    },
                };
                let ordinal: usize = match self.expected.get(&identity) {
                    Some(ordinal) => *ordinal,
                    None => {
                        return Err(
                            Error::Protocol(
                                with_hex(
                                    "duplicate or unknown SEND_IMM identity 0x",
                                    identity,
                                    16,
                                    "",
                                ),
                            ),
                        );
                    },
                };
                match validate_probe_payload(ordinal, identity, &bytes) {
                    Ok(()) => {},
                    Err(error) => {
                        return Err(error);
                    },
                }
                if self.slots.contains(&slot) {
                    return Err(
                        Error::Protocol(
                            with_number("RX slot ", slot as u64, " completed more than once"),
                        ),
                    );
                }
                self.expected.remove(&identity);
                self.slots.insert(slot);
                assert(self@ =~= old(self)@.after(slot, identity));
                Ok(())
            },
        }
    }

    /// How many messages have arrived.
    pub fn seen(&self) -> (seen: usize)
        requires
            self@.wf(),
        ensures
            seen == self@.slots.len(),
    {
        self.slots.len()
    }

    /// How many messages belong to the probe.
    pub fn count(&self) -> (count: usize)
        ensures
            count == self@.count,
    {
        self.count
    }

    /// Checks that every message has arrived exactly once.
    pub fn check_complete(&self) -> (checked: Result<()>)
        requires
            self@.wf(),
        ensures
            ({
                let missing = self@.expected.dom().len();
                let seen = self@.slots.len();
                match checked {
                    Ok(()) => missing == 0 && seen == self@.count,
                    Err(error) => {
                        &&& missing != 0
                        &&& error@ == ErrorView::Protocol(
                            "SEND_IMM exact-once check failed: missing="@ + text::decimal(missing)
                                + " distinct_rx_slots="@ + text::decimal(seen) + "/"@
                                + text::decimal(self@.count),
                        )
                    },
                }
            }),
    {
        let missing: usize = self.expected.len();
        let seen: usize = self.slots.len();
        if missing != 0 || seen != self.count {
            let mut detail = with_numbers(
                "SEND_IMM exact-once check failed: missing=",
                missing as u64,
                " distinct_rx_slots=",
                seen as u64,
                "/",
            );
            push_decimal(&mut detail, self.count as u64);
            return Err(Error::Protocol(detail));
        }
        Ok(())
    }
}

/// A probe that has seen as many messages as belong to it has seen every one, each in a slot of its
/// own.
pub proof fn complete_probes_saw_every_message(probe: ProbeView)
    requires
        probe.wf(),
        probe.slots.len() == probe.count,
    ensures
        forall|ordinal: nat| ordinal < probe.count ==> #[trigger] probe.arrived(ordinal),
        probe.expected.is_empty(),
{
    probe.expected.dom().lemma_len0_is_empty();
}

/// A message that arrived is not waited for any more, and what the probe waits for is otherwise
/// unchanged.
pub proof fn arrivals_count_once(probe: ProbeView, slot: usize, ordinal: nat, other: nat)
    requires
        probe.wf(),
        ordinal < probe.count,
        other < probe.count,
        !probe.arrived(ordinal),
    ensures
        probe.after(slot, identity_of(ordinal)).arrived(ordinal),
        other != ordinal ==> probe.after(slot, identity_of(ordinal)).arrived(other)
            == probe.arrived(other),
{
    identities_are_unique(ordinal, other);
}

/// The report of the receiving side.
pub open spec fn parent_fields(count: nat, seen: nat, stats: CompletionStats) -> Seq<
    (Seq<char>, Seq<char>),
> {
    seq![
        ("state"@, json::string("passed"@)),
        ("role"@, json::string("parent"@)),
        ("transportMode"@, json::string("RC"@)),
        ("opcode"@, json::string("SEND_WITH_IMM"@)),
        ("messages"@, text::decimal(count)),
        ("distinctImmediate"@, text::decimal(seen)),
        ("distinctRxSlots"@, text::decimal(seen)),
        ("full64BitIdentity"@, json::boolean(true)),
        ("payloadBinding"@, json::boolean(true)),
        ("recvCqe"@, text::decimal(stats.recv_cqe as nat)),
        ("cqeErrors"@, text::decimal(stats.cqe_error as nat)),
    ]
}

/// The report of the receiving side, as one line of JSON.
pub fn parent_report(probe: &ImmProbe, stats: CompletionStats) -> (line: String)
    requires
        probe@.wf(),
    ensures
        line@ == json::object(
            parent_fields(probe@.count, probe@.slots.len(), stats),
        ),
{
    let mut object = JsonObject::new();
    object.text("state", "passed");
    object.text("role", "parent");
    object.text("transportMode", "RC");
    object.text("opcode", "SEND_WITH_IMM");
    object.number("messages", probe.count() as u64);
    object.number("distinctImmediate", probe.seen() as u64);
    object.number("distinctRxSlots", probe.seen() as u64);
    object.flag("full64BitIdentity", true);
    object.flag("payloadBinding", true);
    object.number("recvCqe", stats.recv_cqe);
    object.number("cqeErrors", stats.cqe_error);
    assert(object@ =~= parent_fields(probe@.count, probe@.slots.len(), stats));
    object.finish()
}

/// Why the sending side's run counts as failed, if it does.
pub open spec fn sender_error(ack: Seq<u8>, stats: CompletionStats, count: nat) -> Option<ErrorView> {
    if ack != text::utf8("SEND_IMM_PROBE_ACK"@) {
        Some(ErrorView::Protocol("invalid SEND_IMM probe ACK"@))
    } else if stats.send_retired != count || stats.cqe_error != 0 {
        Some(
            ErrorView::Protocol(
                "SEND_IMM sender completion mismatch: retired="@ + text::decimal(
                    stats.send_retired as nat,
                ) + " expected="@ + text::decimal(count) + " errors="@ + text::decimal(
                    stats.cqe_error as nat,
                ),
            ),
        )
    } else {
        None
    }
}

/// Checks the answer to the sending side and what it counted.
pub fn check_sender(ack: &[u8], stats: CompletionStats, count: usize) -> (checked: Result<()>)
    ensures
        match checked {
            Ok(()) => sender_error(ack@, stats, count as nat) is None,
            Err(error) => sender_error(ack@, stats, count as nat) == Some(error@),
        },
{
    if !same_bytes(ack, PROBE_ACK.as_bytes()) {
        return Err(protocol("invalid SEND_IMM probe ACK"));
    }
    if stats.send_retired != count as u64 || stats.cqe_error != 0 {
        let mut detail = with_numbers(
            "SEND_IMM sender completion mismatch: retired=",
            stats.send_retired,
            " expected=",
            count as u64,
            " errors=",
        );
        push_decimal(&mut detail, stats.cqe_error);
        return Err(Error::Protocol(detail));
    }
    Ok(())
}

/// The report of the sending side.
pub open spec fn child_fields(count: nat, stats: CompletionStats) -> Seq<(Seq<char>, Seq<char>)> {
    seq![
        ("state"@, json::string("passed"@)),
        ("role"@, json::string("child"@)),
        ("transportMode"@, json::string("RC"@)),
        ("opcode"@, json::string("SEND_IMM"@)),
        ("messages"@, text::decimal(count)),
        ("sendRetired"@, text::decimal(stats.send_retired as nat)),
        ("cqeErrors"@, text::decimal(stats.cqe_error as nat)),
    ]
}

/// The report of the sending side, as one line of JSON.
pub fn child_report(count: usize, stats: CompletionStats) -> (line: String)
    ensures
        line@ == json::object(child_fields(count as nat, stats)),
{
    let mut object = JsonObject::new();
    object.text("state", "passed");
    object.text("role", "child");
    object.text("transportMode", "RC");
    object.text("opcode", "SEND_IMM");
    object.number("messages", count as u64);
    object.number("sendRetired", stats.send_retired);
    object.number("cqeErrors", stats.cqe_error);
    assert(object@ =~= child_fields(count as nat, stats));
    object.finish()
}

} // verus!
