//! The probe of one-sided reads: a parent registers a source, a child reads all of it in chunks with
//! several reads outstanding, and every read completes exactly once.

use std::collections::{BTreeSet, HashSet};

use vstd::prelude::*;

use crate::benchmark;
use crate::bytes;
use crate::bytes::{copy_range, push_bytes, push_u32, push_u64, read_u32, read_u64, same_bytes};
use crate::error::{invalid, protocol, Error, ErrorView, Result};
use crate::json;
use crate::json::JsonObject;
use crate::provider::{map_ffi_error, FfiError};
use crate::sha256;
use crate::sha256::sha256_bytes;
use crate::text;
use crate::text::{
    decimal_string, join, lossy_text, push_signed, quote, with_number, with_numbers, Text,
};

pub mod laws;

verus! {

pub const RM_READ_PROBE_DEFAULT_BYTES: usize = 67_108_864;

pub const RM_READ_PROBE_DEFAULT_CHUNK: usize = 1_048_576;

pub const RM_READ_PROBE_DEFAULT_DEPTH: u32 = 128;

/// The version of the manifest.
pub const WIRE_VERSION: u32 = 1;

/// The longest frame.
pub const MAX_FRAME: usize = 131_072;

/// How long a child waits for its reads, in nanoseconds.
pub const READ_TIMEOUT_NS: u128 = 60_000_000_000;

/// The native status for a resource that is in use.
pub const BUSY_STATUS: i32 = -16;

/// What a probe is run with.
#[derive(Debug, Eq, PartialEq)]
pub struct RmReadProbeConfig {
    pub device_name: String,
    pub eid_index: u32,
    pub transfer_bytes: usize,
    pub chunk_bytes: usize,
    pub queue_depth: u32,
    pub jetty_token: u32,
    pub segment_token: u32,
}

impl RmReadProbeConfig {
    /// The configuration of a device, with defaults for the rest.
    pub fn new<T: Text>(device_name: T, eid_index: u32) -> (config: Self)
        ensures
            config.device_name@ == device_name.text(),
            config.eid_index == eid_index,
            config.transfer_bytes == 67_108_864,
            config.chunk_bytes == 1_048_576,
            config.queue_depth == 128,
            config.jetty_token == 0x4a46_524d,
            config.segment_token == 0x5345_4752,
    {
        RmReadProbeConfig {
            device_name: device_name.into_string(),
            eid_index,
            transfer_bytes: RM_READ_PROBE_DEFAULT_BYTES,
            chunk_bytes: RM_READ_PROBE_DEFAULT_CHUNK,
            queue_depth: RM_READ_PROBE_DEFAULT_DEPTH,
            jetty_token: 0x4a46_524d,
            segment_token: 0x5345_4752,
        }
    }

    /// Whether nothing is missing or zero, and a chunk fits one read.
    pub open spec fn usable(self) -> bool {
        &&& self.device_name@.len() > 0
        &&& self.transfer_bytes > 0
        &&& 0 < self.chunk_bytes <= u32::MAX
        &&& self.queue_depth > 0
    }

    /// Whether the probe can be run.
    pub fn validate(&self) -> (valid: Result<()>)
        ensures
            match valid {
                Ok(()) => self.usable(),
                Err(error) => {
                    &&& !self.usable()
                    &&& error@ == ErrorView::InvalidConfiguration(
                        "RM READ probe requires nonzero bytes, chunk, and queue depth"@,
                    )
                },
            },
    {
        if self.device_name.as_str().is_empty() || self.transfer_bytes == 0 || self.chunk_bytes == 0
            || self.chunk_bytes as u64 > u32::MAX as u64 || self.queue_depth == 0 {
            return Err(invalid("RM READ probe requires nonzero bytes, chunk, and queue depth"));
        }
        Ok(())
    }
}

/// A word turned left by some bits.
pub open spec fn turned(word: u64, bits: u64) -> u64 {
    if bits == 0 {
        word
    } else {
        (word << bits) | (word >> (64 - bits) as u64)
    }
}

/// A byte of the source.
pub open spec fn probe_byte(index: u64) -> u8 {
    let lane = index.wrapping_mul(0x9e37_79b9_7f4a_7c15);
    ((turned(lane, index % 61) & 0xff) as u8) ^ (((index >> 12) & 0xff) as u8)
}

/// The source of a probe: the same bytes every time, and different ones at different places.
pub fn probe_bytes(length: usize) -> (source: Vec<u8>)
    ensures
        source@ == Seq::new(length as nat, |i: int| probe_byte(i as u64)),
{
    let mut source: Vec<u8> = Vec::new();
    let mut index: u64 = 0;
    while index < length as u64
        invariant
            index <= length,
            source@ == Seq::new(index as nat, |i: int| probe_byte(i as u64)),
        decreases length - index,
    {
        let lane: u64 = index.wrapping_mul(0x9e37_79b9_7f4a_7c15);
        let bits: u64 = index % 61;
        let word: u64 = if bits == 0 {
            lane
        } else {
            (lane << bits) | (lane >> (64 - bits))
        };
        let byte: u8 = ((word & 0xff) as u8) ^ (((index >> 12) & 0xff) as u8);
        source.push(byte);
        index += 1;
        assert(source@ =~= Seq::new(index as nat, |i: int| probe_byte(i as u64)));
    }
    source
}

/// What a provider offers for one-sided reads.
#[derive(Clone, Copy, Debug, Eq, PartialEq, Structural)]
pub struct ReadCapability {
    pub transport_modes: u16,
    pub max_read_size: u32,
    pub max_jfs_sge: u32,
    pub max_jfs_rsge: u32,
    pub max_jfs_depth: u32,
}

/// Why a provider cannot run a probe, if it cannot.
pub open spec fn capability_error(
    config: RmReadProbeConfig,
    capability: ReadCapability,
    needs_destination: bool,
) -> Option<ErrorView> {
    if capability.transport_modes % 2 == 0 || capability.max_read_size == 0
        || capability.max_jfs_sge == 0 || capability.max_jfs_rsge == 0 {
        Some(
            ErrorView::InvalidConfiguration("provider lacks RM READ capability or required SGEs"@),
        )
    } else if config.queue_depth > capability.max_jfs_depth {
        Some(
            ErrorView::InvalidConfiguration(
                "queue_depth="@ + text::decimal(config.queue_depth as nat)
                    + " exceeds max_jfs_depth="@ + text::decimal(capability.max_jfs_depth as nat)
                    + ""@,
            ),
        )
    } else if needs_destination && config.transfer_bytes > u32::MAX {
        Some(ErrorView::InvalidConfiguration("probe destination is limited to u32 bytes"@))
    } else {
        None
    }
}

/// Whether a provider can run a probe.
pub fn check_capability(
    config: &RmReadProbeConfig,
    capability: ReadCapability,
    needs_destination: bool,
) -> (checked: Result<()>)
    ensures
        match checked {
            Ok(()) => capability_error(*config, capability, needs_destination) is None,
            Err(error) => capability_error(*config, capability, needs_destination) == Some(error@),
        },
{
    if capability.transport_modes % 2 == 0 || capability.max_read_size == 0
        || capability.max_jfs_sge == 0 || capability.max_jfs_rsge == 0 {
        return Err(invalid("provider lacks RM READ capability or required SGEs"));
    }
    if config.queue_depth > capability.max_jfs_depth {
        return Err(
            Error::InvalidConfiguration(
                with_numbers(
                    "queue_depth=",
                    config.queue_depth as u64,
                    " exceeds max_jfs_depth=",
                    capability.max_jfs_depth as u64,
                    "",
                ),
            ),
        );
    }
    if needs_destination && config.transfer_bytes as u64 > u32::MAX as u64 {
        return Err(invalid("probe destination is limited to u32 bytes"));
    }
    Ok(())
}

/// How a registered source is found from the other side.
#[derive(Debug, Eq, PartialEq)]
pub struct ReadDescriptorData {
    pub version: u32,
    pub eid: Vec<u8>,
    pub uasid: u32,
    pub va: u64,
    pub length: u64,
    pub token_id: u32,
    pub access: u32,
    pub token_policy: u32,
}

/// A [`ReadDescriptorData`] with its identifier as a sequence.
pub struct ReadDescriptorView {
    pub version: u32,
    pub eid: Seq<u8>,
    pub uasid: u32,
    pub va: u64,
    pub length: u64,
    pub token_id: u32,
    pub access: u32,
    pub token_policy: u32,
}

impl View for ReadDescriptorData {
    type V = ReadDescriptorView;

    open spec fn view(&self) -> ReadDescriptorView {
        ReadDescriptorView {
            version: self.version,
            eid: self.eid@,
            uasid: self.uasid,
            va: self.va,
            length: self.length,
            token_id: self.token_id,
            access: self.access,
            token_policy: self.token_policy,
        }
    }
}

impl ReadDescriptorView {
    /// The bytes of the descriptor.
    pub open spec fn wire(self) -> Seq<u8> {
        bytes::be(self.version as nat, 4) + self.eid + bytes::be(self.uasid as nat, 4) + bytes::be(
            self.va as nat,
            8,
        ) + bytes::be(self.length as nat, 8) + bytes::be(self.token_id as nat, 4) + bytes::be(
            self.access as nat,
            4,
        ) + bytes::be(self.token_policy as nat, 4)
    }

    /// The descriptor that some bytes hold, or why they are refused.
    pub open spec fn parse(input: Seq<u8>) -> core::result::Result<Self, ErrorView> {
        if input.len() != 52 {
            Err(ErrorView::Protocol("invalid READ descriptor length"@))
        } else {
            Ok(
                ReadDescriptorView {
                    version: bytes::be_value(input.subrange(0, 4)) as u32,
                    eid: input.subrange(4, 20),
                    uasid: bytes::be_value(input.subrange(20, 24)) as u32,
                    va: bytes::be_value(input.subrange(24, 32)) as u64,
                    length: bytes::be_value(input.subrange(32, 40)) as u64,
                    token_id: bytes::be_value(input.subrange(40, 44)) as u32,
                    access: bytes::be_value(input.subrange(44, 48)) as u32,
                    token_policy: bytes::be_value(input.subrange(48, 52)) as u32,
                },
            )
        }
    }
}

/// The bytes of a descriptor.
pub fn encode_read_descriptor(value: &ReadDescriptorData) -> (out: Vec<u8>)
    ensures
        out@ == value@.wire(),
{
    let mut out: Vec<u8> = Vec::new();
    push_u32(&mut out, value.version);
    push_bytes(&mut out, &value.eid);
    push_u32(&mut out, value.uasid);
    push_u64(&mut out, value.va);
    push_u64(&mut out, value.length);
    push_u32(&mut out, value.token_id);
    push_u32(&mut out, value.access);
    push_u32(&mut out, value.token_policy);
    assert(out@ =~= value@.wire());
    out
}

/// The descriptor that some bytes hold.
pub fn decode_read_descriptor(input: &[u8]) -> (decoded: Result<ReadDescriptorData>)
    ensures
        match decoded {
            Ok(value) => ReadDescriptorView::parse(input@) == Ok::<ReadDescriptorView, ErrorView>(
                value@,
            ),
            Err(error) => ReadDescriptorView::parse(input@) == Err::<ReadDescriptorView, ErrorView>(
                error@,
            ),
        },
{
    if input.len() != 52 {
        return Err(protocol("invalid READ descriptor length"));
    }
    Ok(
        ReadDescriptorData {
            version: read_u32(input, 0),
            eid: copy_range(input, 4, 20),
            uasid: read_u32(input, 20),
            va: read_u64(input, 24),
            length: read_u64(input, 32),
            token_id: read_u32(input, 40),
            access: read_u32(input, 44),
            token_policy: read_u32(input, 48),
        },
    )
}

/// Reading a descriptor gives back what it was written with.
pub proof fn read_descriptor_round_trip(value: ReadDescriptorView)
    requires
        value.eid.len() == 16,
    ensures
        ReadDescriptorView::parse(value.wire()) == Ok::<ReadDescriptorView, ErrorView>(value),
{
    let wire = value.wire();
    bytes::lemma_be_bounds();
    bytes::lemma_be(value.version as nat, 4);
    bytes::lemma_be(value.uasid as nat, 4);
    bytes::lemma_be(value.va as nat, 8);
    bytes::lemma_be(value.length as nat, 8);
    bytes::lemma_be(value.token_id as nat, 4);
    bytes::lemma_be(value.access as nat, 4);
    bytes::lemma_be(value.token_policy as nat, 4);
    assert(wire.subrange(0, 4) =~= bytes::be(value.version as nat, 4));
    assert(wire.subrange(4, 20) =~= value.eid);
    assert(wire.subrange(20, 24) =~= bytes::be(value.uasid as nat, 4));
    assert(wire.subrange(24, 32) =~= bytes::be(value.va as nat, 8));
    assert(wire.subrange(32, 40) =~= bytes::be(value.length as nat, 8));
    assert(wire.subrange(40, 44) =~= bytes::be(value.token_id as nat, 4));
    assert(wire.subrange(44, 48) =~= bytes::be(value.access as nat, 4));
    assert(wire.subrange(48, 52) =~= bytes::be(value.token_policy as nat, 4));
}

/// The bytes of a manifest.
pub open spec fn manifest_wire(transfer_bytes: nat, chunk_bytes: nat, digest: Seq<u8>) -> Seq<u8> {
    bytes::be(1, 4) + bytes::be(transfer_bytes, 8) + bytes::be(chunk_bytes, 4) + digest
}

/// The lengths and the digest that a manifest holds, or why it is refused.
pub open spec fn manifest_parse(input: Seq<u8>) -> core::result::Result<
    (nat, nat, Seq<u8>),
    ErrorView,
> {
    if input.len() != 48 || bytes::be_value(input.subrange(0, 4)) != 1 {
        Err(ErrorView::Protocol("invalid RM READ manifest"@))
    } else if bytes::be_value(input.subrange(4, 12)) > usize::MAX {
        Err(ErrorView::Protocol("manifest length exceeds usize"@))
    } else {
        Ok(
            (
                bytes::be_value(input.subrange(4, 12)),
                bytes::be_value(input.subrange(12, 16)),
                input.subrange(16, 48),
            ),
        )
    }
}

/// The manifest of a source.
pub fn encode_manifest(config: &RmReadProbeConfig, source: &[u8]) -> (manifest: Vec<u8>)
    requires
        config.usable(),
        source@.len() <= sha256::MAX_INPUT_LEN,
    ensures
        manifest@ == manifest_wire(
            config.transfer_bytes as nat,
            config.chunk_bytes as nat,
            sha256::sha256(source@),
        ),
{
    let digest = sha256_bytes(source);
    let mut manifest: Vec<u8> = Vec::new();
    push_u32(&mut manifest, WIRE_VERSION);
    push_u64(&mut manifest, config.transfer_bytes as u64);
    push_u32(&mut manifest, config.chunk_bytes as u32);
    push_bytes(&mut manifest, digest.as_slice());
    assert(manifest@ =~= manifest_wire(
        config.transfer_bytes as nat,
        config.chunk_bytes as nat,
        sha256::sha256(source@),
    ));
    manifest
}

/// The lengths and the digest that a manifest holds.
pub fn decode_manifest(input: &[u8]) -> (decoded: Result<(usize, usize, Vec<u8>)>)
    ensures
        match decoded {
            Ok((transfer_bytes, chunk_bytes, digest)) => manifest_parse(input@) == Ok::<
                (nat, nat, Seq<u8>),
                ErrorView,
            >((transfer_bytes as nat, chunk_bytes as nat, digest@)),
            Err(error) => manifest_parse(input@) == Err::<(nat, nat, Seq<u8>), ErrorView>(error@),
        },
{
    if input.len() != 48 || read_u32(input, 0) != WIRE_VERSION {
        return Err(protocol("invalid RM READ manifest"));
    }
    let transfer_bytes: u64 = read_u64(input, 4);
    if transfer_bytes > usize::MAX as u64 {
        return Err(protocol("manifest length exceeds usize"));
    }
    let chunk_bytes: u32 = read_u32(input, 12);
    Ok((transfer_bytes as usize, chunk_bytes as usize, copy_range(input, 16, 48)))
}

/// Reading a manifest gives back what it was written with.
pub proof fn manifest_round_trip(transfer_bytes: nat, chunk_bytes: nat, digest: Seq<u8>)
    requires
        transfer_bytes <= usize::MAX,
        chunk_bytes <= u32::MAX,
        digest.len() == 32,
    ensures
        manifest_parse(manifest_wire(transfer_bytes, chunk_bytes, digest)) == Ok::<
            (nat, nat, Seq<u8>),
            ErrorView,
        >((transfer_bytes, chunk_bytes, digest)),
{
    let wire = manifest_wire(transfer_bytes, chunk_bytes, digest);
    bytes::lemma_be_bounds();
    bytes::lemma_be(1, 4);
    bytes::lemma_be(transfer_bytes, 8);
    bytes::lemma_be(chunk_bytes, 4);
    assert(wire.subrange(0, 4) =~= bytes::be(1, 4));
    assert(wire.subrange(4, 12) =~= bytes::be(transfer_bytes, 8));
    assert(wire.subrange(12, 16) =~= bytes::be(chunk_bytes, 4));
    assert(wire.subrange(16, 48) =~= digest);
}

/// Why a child refuses what its parent announces, if it does.
pub open spec fn announced_error(
    config: RmReadProbeConfig,
    transfer_bytes: nat,
    chunk_bytes: nat,
    descriptor_length: u64,
    max_read_size: u32,
) -> Option<ErrorView> {
    if transfer_bytes != config.transfer_bytes || chunk_bytes != config.chunk_bytes
        || descriptor_length != transfer_bytes {
        Some(ErrorView::Protocol("RM READ manifest/config mismatch"@))
    } else if config.chunk_bytes > max_read_size {
        Some(
            ErrorView::InvalidConfiguration(
                "chunk_bytes="@ + text::decimal(config.chunk_bytes as nat)
                    + " exceeds provider max_read_size="@ + text::decimal(max_read_size as nat)
                    + ""@,
            ),
        )
    } else {
        None
    }
}

/// Whether what a parent announces is what the child was told.
pub fn check_announced(
    config: &RmReadProbeConfig,
    transfer_bytes: usize,
    chunk_bytes: usize,
    descriptor_length: u64,
    max_read_size: u32,
) -> (checked: Result<()>)
    ensures
        ({
            let refused = announced_error(
                *config,
                transfer_bytes as nat,
                chunk_bytes as nat,
                descriptor_length,
                max_read_size,
            );
            match checked {
                Ok(()) => refused is None,
                Err(error) => refused == Some(error@),
            }
        }),
{
    if transfer_bytes != config.transfer_bytes || chunk_bytes != config.chunk_bytes
        || descriptor_length != transfer_bytes as u64 {
        return Err(protocol("RM READ manifest/config mismatch"));
    }
    if config.chunk_bytes as u64 > max_read_size as u64 {
        return Err(
            Error::InvalidConfiguration(
                with_numbers(
                    "chunk_bytes=",
                    config.chunk_bytes as u64,
                    " exceeds provider max_read_size=",
                    max_read_size as u64,
                    "",
                ),
            ),
        );
    }
    Ok(())
}

/// Whether a frame is short enough.
pub fn check_frame(length: usize) -> (checked: Result<()>)
    ensures
        match checked {
            Ok(()) => length <= 131_072,
            Err(error) => {
                &&& length > 131_072
                &&& error@ == ErrorView::Protocol("RM READ OOB frame exceeds limit"@)
            },
        },
{
    if length > MAX_FRAME {
        return Err(protocol("RM READ OOB frame exceeds limit"));
    }
    Ok(())
}

/// A frame: its length and its payload.
pub fn encode_frame(payload: &[u8]) -> (frame: Result<Vec<u8>>)
    ensures
        match frame {
            Ok(frame) => {
                &&& payload@.len() <= 131_072
                &&& frame@ == bytes::be(payload@.len(), 4) + payload@
            },
            Err(error) => {
                &&& payload@.len() > 131_072
                &&& error@ == ErrorView::Protocol("RM READ OOB frame exceeds limit"@)
            },
        },
{
    match check_frame(payload.len()) {
        Ok(()) => {},
        Err(error) => {
            return Err(error);
        },
    }
    let mut frame: Vec<u8> = Vec::new();
    push_u32(&mut frame, payload.len() as u32);
    push_bytes(&mut frame, payload);
    assert(frame@ =~= bytes::be(payload@.len(), 4) + payload@);
    Ok(frame)
}

/// Whether a control frame is the one that was waited for.
pub fn expect_control(actual: &[u8], expected: &[u8]) -> (checked: Result<()>)
    ensures
        match checked {
            Ok(()) => actual@ == expected@,
            Err(error) => {
                &&& actual@ != expected@
                &&& error@ == ErrorView::Protocol(
                    "unexpected RM READ control frame: expected "@ + text::quoted(
                        text::lossy_utf8(expected@),
                    ) + ", got "@ + text::quoted(text::lossy_utf8(actual@)),
                )
            },
        },
{
    if !same_bytes(actual, expected) {
        let mut detail = "unexpected RM READ control frame: expected ".to_owned();
        detail.append(quote(lossy_text(expected).as_str()).as_str());
        detail.append(", got ");
        detail.append(quote(lossy_text(actual).as_str()).as_str());
        return Err(Error::Protocol(detail));
    }
    Ok(())
}

/// Whether what was read has the digest that was announced.
pub fn check_content(received: &[u8], expected_digest: &[u8]) -> (checked: Result<()>)
    requires
        received@.len() <= sha256::MAX_INPUT_LEN,
    ensures
        match checked {
            Ok(()) => sha256::sha256(received@) == expected_digest@,
            Err(error) => {
                &&& sha256::sha256(received@) != expected_digest@
                &&& error@ == ErrorView::Protocol("RM READ content digest mismatch"@)
            },
        },
{
    let digest = sha256_bytes(received);
    if !same_bytes(digest.as_slice(), expected_digest) {
        return Err(protocol("RM READ content digest mismatch"));
    }
    Ok(())
}

/// One read of a chunk, from and to the same offset.
#[derive(Clone, Copy, Debug, Eq, PartialEq, Structural)]
pub struct ReadPost {
    pub offset: u64,
    pub length: u32,
    pub user_ctx: u64,
}

/// A completion of a read, as the provider reports it.
#[derive(Clone, Copy, Debug, Eq, PartialEq, Structural)]
pub struct ReadCompletion {
    pub status: i32,
    pub opcode: u32,
    pub user_ctx: u64,
    pub completion_len: u32,
    pub local_id: u32,
    pub event_kind: u32,
    pub is_recv: bool,
    pub is_jetty: bool,
    pub user_ctx_valid: bool,
    pub remote_id_valid: bool,
    pub imm_data_valid: bool,
}

impl ReadCompletion {
    /// Whether the completion is a failed one, or none of a read.
    pub open spec fn failed(self) -> bool {
        self.status != 0 || self.is_recv || !self.user_ctx_valid || self.event_kind != 0
    }
}

/// The values of one field that completions showed, each once.
#[verifier::ext_equal]
pub struct SeenView {
    pub opcodes: Set<u32>,
    pub lengths: Set<u32>,
    pub local_ids: Set<u32>,
    pub is_jetty: Set<bool>,
    pub remote_id_valid: Set<bool>,
    pub imm_data_valid: Set<bool>,
}

impl SeenView {
    /// Nothing seen.
    pub open spec fn nothing() -> Self {
        SeenView {
            opcodes: Set::empty(),
            lengths: Set::empty(),
            local_ids: Set::empty(),
            is_jetty: Set::empty(),
            remote_id_valid: Set::empty(),
            imm_data_valid: Set::empty(),
        }
    }

    /// With the values of one more completion.
    pub open spec fn with(self, record: ReadCompletion) -> Self {
        SeenView {
            opcodes: self.opcodes.insert(record.opcode),
            lengths: self.lengths.insert(record.completion_len),
            local_ids: self.local_ids.insert(record.local_id),
            is_jetty: self.is_jetty.insert(record.is_jetty),
            remote_id_valid: self.remote_id_valid.insert(record.remote_id_valid),
            imm_data_valid: self.imm_data_valid.insert(record.imm_data_valid),
        }
    }
}

/// The truth values of a set, `false` first.
pub open spec fn flags_in_order(values: Set<bool>) -> Seq<bool> {
    (if values.contains(false) {
        seq![false]
    } else {
        Seq::empty()
    }) + (if values.contains(true) {
        seq![true]
    } else {
        Seq::empty()
    })
}

/// Whether the numbers stand in order, each once.
pub open spec fn ascending(values: Seq<u32>) -> bool {
    forall|i: int, j: int| 0 <= i < j < values.len() ==> #[trigger] values[i] < #[trigger] values[j]
}

proof fn lemma_set_order(values: &BTreeSet<u32>)
    ensures
        ascending(vstd::std_specs::iter::IteratorSpec::remaining(&values.iter()).unref()),
{
    broadcast use vstd::laws_cmp::group_laws_cmp;

    let numbers = vstd::std_specs::iter::IteratorSpec::remaining(&values.iter());
    assert(vstd::laws_cmp::obeys_cmp::<u32>());
    assert(vstd::laws_cmp::obeys_cmp::<&u32>());
    assert(vstd::std_specs::btree::increasing_seq(numbers));
    assert forall|i: int, j: int| 0 <= i < j < numbers.len() implies #[trigger] numbers.unref()[i]
        < #[trigger] numbers.unref()[j] by {
        assert(vstd::std_specs::cmp::OrdSpec::cmp_spec(&numbers[i], &numbers[j]) is Less);
    }
}

/// The numbers of a set in order.
fn listed(values: &BTreeSet<u32>) -> (list: Vec<u32>)
    ensures
        ascending(list@),
        list@.to_set() == values@,
{
    let mut list: Vec<u32> = Vec::new();
    let ghost all = vstd::std_specs::iter::IteratorSpec::remaining(&values.iter()).unref();
    for value in it: values.iter()
        invariant
            it.seq().unref() == all,
            list@ == all.take(it.index() as int),
    {
        assert(all.take(it.index() + 1) =~= all.take(it.index() as int).push(*value));
        list.push(*value);
    }
    proof {
        assert(list@ =~= all);
        lemma_set_order(values);
    }
    list
}

/// The truth values seen of one field.
#[derive(Clone, Copy, Debug, Eq, PartialEq, Structural)]
pub struct SeenFlags {
    pub no: bool,
    pub yes: bool,
}

impl SeenFlags {
    /// The values seen.
    pub open spec fn set(self) -> Set<bool> {
        Set::new(
            |value: bool|
                if value {
                    self.yes
                } else {
                    self.no
                },
        )
    }

    fn note(self, value: bool) -> (noted: Self)
        ensures
            noted.set() == self.set().insert(value),
    {
        let noted = if value {
            SeenFlags { no: self.no, yes: true }
        } else {
            SeenFlags { no: true, yes: self.yes }
        };
        assert(noted.set() =~= self.set().insert(value));
        noted
    }

    /// The values seen, `false` first.
    pub fn list(self) -> (values: Vec<bool>)
        ensures
            values@ == flags_in_order(self.set()),
    {
        let mut values: Vec<bool> = Vec::new();
        if self.no {
            values.push(false);
        }
        if self.yes {
            values.push(true);
        }
        assert(values@ =~= flags_in_order(self.set()));
        values
    }
}

/// The reads of a probe.
#[verifier::ext_equal]
pub struct ReadsView {
    pub transfer_bytes: nat,
    pub chunk_bytes: nat,
    pub depth: nat,
    /// The reads posted.
    pub next: nat,
    /// The reads that have not completed, by their context.
    pub owners: Set<u64>,
    /// The reads completed.
    pub completed: nat,
    /// The status of giving the source back while reads were outstanding.
    pub busy_status: Option<i32>,
    pub seen: SeenView,
}

impl ReadsView {
    /// How many reads the transfer takes.
    pub open spec fn expected(self) -> nat {
        benchmark::chunks_of(self.transfer_bytes, self.chunk_bytes)
    }

    /// Every read that was posted is outstanding or completed, none twice, and no more are
    /// outstanding than the queue takes.
    pub open spec fn wf(self) -> bool {
        &&& 0 < self.transfer_bytes <= usize::MAX
        &&& 0 < self.chunk_bytes <= u32::MAX
        &&& 0 < self.depth
        &&& self.next <= self.expected()
        &&& self.owners.finite()
        &&& self.owners.len() <= self.depth
        &&& self.completed + self.owners.len() == self.next
        &&& forall|user_ctx: u64| #[trigger]
            self.owners.contains(user_ctx) ==> 1 <= user_ctx <= self.next
    }

    /// The next read, where there is one and the queue has room.
    pub open spec fn upcoming(self) -> Option<ReadPost> {
        if self.next < self.expected() && self.owners.len() < self.depth {
            let offset = self.next * self.chunk_bytes;
            let left = (self.transfer_bytes - offset) as nat;
            Some(
                ReadPost {
                    offset: offset as u64,
                    length: if left <= self.chunk_bytes {
                        left as u32
                    } else {
                        self.chunk_bytes as u32
                    },
                    user_ctx: (self.next + 1) as u64,
                },
            )
        } else {
            None
        }
    }

    /// After the next read was posted.
    pub open spec fn after_post(self) -> Self {
        ReadsView {
            next: self.next + 1,
            owners: self.owners.insert((self.next + 1) as u64),
            ..self
        }
    }

    /// Why a completion is refused, if it is refused.
    pub open spec fn completion_error(self, record: ReadCompletion) -> Option<ErrorView> {
        if record.failed() {
            Some(
                ErrorView::Completion {
                    status: record.status,
                    opcode: record.opcode,
                    user_ctx: record.user_ctx,
                    sequence: None,
                    post_call: None,
                    post_index: None,
                    post_count: None,
                },
            )
        } else if !self.owners.contains(record.user_ctx) {
            Some(
                ErrorView::Protocol(
                    "unknown or duplicate READ CQE user_ctx="@ + text::decimal(
                        record.user_ctx as nat,
                    ) + ""@,
                ),
            )
        } else {
            None
        }
    }

    /// After a completion.
    pub open spec fn after_completion(self, record: ReadCompletion) -> Self {
        let noted = ReadsView { seen: self.seen.with(record), ..self };
        if self.completion_error(record) is Some {
            noted
        } else {
            ReadsView {
                owners: self.owners.remove(record.user_ctx),
                completed: self.completed + 1,
                ..noted
            }
        }
    }
}

/// Every read that a probe posts lies in the transfer and is not empty, the reads lie one after the
/// other, and the last one ends where the transfer ends.
pub proof fn reads_cover_the_transfer(reads: ReadsView)
    requires
        reads.wf(),
        reads.upcoming() is Some,
    ensures
        ({
            let post = reads.upcoming()->0;
            &&& post.offset == reads.next * reads.chunk_bytes
            &&& 0 < post.length <= reads.chunk_bytes
            &&& post.offset + post.length <= reads.transfer_bytes
            &&& reads.next + 1 < reads.expected() ==> post.length == reads.chunk_bytes
            &&& reads.next + 1 == reads.expected() ==> post.offset + post.length
                == reads.transfer_bytes
            &&& post.user_ctx == reads.next + 1
            &&& !reads.owners.contains(post.user_ctx)
        }),
{
    let total = reads.transfer_bytes;
    let chunk = reads.chunk_bytes;
    let next = reads.next;
    let expected = reads.expected();
    benchmark::chunks_cover_the_transfer(total, chunk);
    assert(next * chunk <= (expected - 1) * chunk) by (nonlinear_arith)
        requires
            next <= expected - 1,
    ;
    assert((next + 1) * chunk == next * chunk + chunk) by (nonlinear_arith);
    if next + 1 < expected {
        assert((next + 1) * chunk <= (expected - 1) * chunk) by (nonlinear_arith)
            requires
                next + 1 <= expected - 1,
        ;
    }
}

/// The child's side of a probe.
pub struct ProbeReads {
    transfer_bytes: usize,
    chunk_bytes: usize,
    depth: u32,
    expected: usize,
    next: usize,
    owners: HashSet<u64>,
    completed: usize,
    busy_status: Option<i32>,
    opcodes: BTreeSet<u32>,
    lengths: BTreeSet<u32>,
    local_ids: BTreeSet<u32>,
    is_jetty: SeenFlags,
    remote_id_valid: SeenFlags,
    imm_data_valid: SeenFlags,
}

impl View for ProbeReads {
    type V = ReadsView;

    closed spec fn view(&self) -> ReadsView {
        ReadsView {
            transfer_bytes: self.transfer_bytes as nat,
            chunk_bytes: self.chunk_bytes as nat,
            depth: self.depth as nat,
            next: self.next as nat,
            owners: self.owners@,
            completed: self.completed as nat,
            busy_status: self.busy_status,
            seen: SeenView {
                opcodes: self.opcodes@,
                lengths: self.lengths@,
                local_ids: self.local_ids@,
                is_jetty: self.is_jetty.set(),
                remote_id_valid: self.remote_id_valid.set(),
                imm_data_valid: self.imm_data_valid.set(),
            },
        }
    }
}

/// What giving the source back while reads are outstanding gave.
pub enum BusyProbe {
    /// It was given back.
    Released,
    /// It was refused.
    Refused(FfiError),
}

/// What a child's run came to.
#[derive(Debug, Eq, PartialEq)]
pub struct RmReadProbeReport {
    pub role: &'static str,
    pub transfer_bytes: usize,
    pub chunk_bytes: usize,
    pub completions: usize,
    pub max_read_size: u32,
    pub busy_unimport_status: Option<i32>,
    pub opcodes: Vec<u32>,
    pub completion_lengths: Vec<u32>,
    pub local_ids: Vec<u32>,
    pub is_jetty_values: Vec<bool>,
    pub remote_id_valid_values: Vec<bool>,
    pub imm_data_valid_values: Vec<bool>,
    pub content_verified: bool,
    pub owners_retired: bool,
    pub clean_shutdown: bool,
}

impl ProbeReads {
    /// Whether the number of reads is the one that the transfer takes.
    pub closed spec fn kept(self) -> bool {
        self.expected == self@.expected()
    }

    /// The invariant of the reads.
    pub open spec fn wf(self) -> bool {
        self@.wf() && self.kept()
    }

    /// Nothing posted yet.
    pub fn new(config: &RmReadProbeConfig) -> (reads: Self)
        requires
            config.usable(),
        ensures
            reads.wf(),
            reads@ == (ReadsView {
                transfer_bytes: config.transfer_bytes as nat,
                chunk_bytes: config.chunk_bytes as nat,
                depth: config.queue_depth as nat,
                next: 0,
                owners: Set::empty(),
                completed: 0,
                busy_status: None,
                seen: SeenView::nothing(),
            }),
    {
        let total: usize = config.transfer_bytes;
        let chunk: usize = config.chunk_bytes;
        proof {
            benchmark::chunks_cover_the_transfer(total as nat, chunk as nat);
            benchmark::lemma_chunks_of(
                total as nat,
                chunk as nat,
                (total / chunk) as nat,
                (total % chunk) as nat,
            );
        }
        let expected: usize = if total % chunk == 0 {
            total / chunk
        } else {
            total / chunk + 1
        };
        let none = SeenFlags { no: false, yes: false };
        let reads = ProbeReads {
            transfer_bytes: total,
            chunk_bytes: chunk,
            depth: config.queue_depth,
            expected,
            next: 0,
            owners: HashSet::new(),
            completed: 0,
            busy_status: None,
            opcodes: BTreeSet::new(),
            lengths: BTreeSet::new(),
            local_ids: BTreeSet::new(),
            is_jetty: none,
            remote_id_valid: none,
            imm_data_valid: none,
        };
        proof {
            assert(none.set() =~= Set::<bool>::empty());
            assert(reads@.seen =~= SeenView::nothing());
        }
        reads
    }

    /// The next read, where there is one and the queue has room.
    pub fn next_read(&self) -> (post: Option<ReadPost>)
        requires
            self.wf(),
        ensures
            post == self@.upcoming(),
    {
        proof {
            if self@.upcoming() is Some {
                reads_cover_the_transfer(self@);
            }
        }
        if self.next < self.expected && (self.owners.len() as u64) < self.depth as u64 {
            let offset: usize = self.next * self.chunk_bytes;
            let left: usize = self.transfer_bytes - offset;
            let length: usize = if left <= self.chunk_bytes {
                left
            } else {
                self.chunk_bytes
            };
            Some(
                ReadPost {
                    offset: offset as u64,
                    length: length as u32,
                    user_ctx: self.next as u64 + 1,
                },
            )
        } else {
            None
        }
    }

    /// Notes what posting the next read gave: its status, and whether it has an owner. Says whether
    /// giving the source back is to be tried now.
    pub fn note_post(&mut self, status: i32, has_owner: bool) -> (noted: Result<bool>)
        requires
            old(self).wf(),
            old(self)@.upcoming() is Some,
        ensures
            final(self).wf(),
            match noted {
                Ok(try_busy) => {
                    &&& status == 0 && has_owner
                    &&& final(self)@ == old(self)@.after_post()
                    &&& try_busy == (old(self)@.busy_status is None)
                },
                Err(error) => {
                    &&& final(self)@ == old(self)@
                    &&& if status != 0 {
                        error@ == (ErrorView::Native {
                            operation: "post RM READ (ambiguous owner retained)"@,
                            status,
                        })
                    } else {
                        &&& !has_owner
                        &&& error@ == (ErrorView::NullHandle { operation: "post RM READ"@ })
                    }
                },
            },
    {
        if status != 0 {
            return Err(
                Error::Native { operation: "post RM READ (ambiguous owner retained)", status },
            );
        }
        if !has_owner {
            return Err(Error::NullHandle { operation: "post RM READ" });
        }
        let user_ctx: u64 = self.next as u64 + 1;
        proof {
            reads_cover_the_transfer(self@);
        }
        self.owners.insert(user_ctx);
        self.next = self.next + 1;
        assert(self@ =~= old(self)@.after_post());
        Ok(self.busy_status.is_none())
    }

    /// Notes what giving the source back gave while reads are outstanding: it must be refused as busy.
    pub fn note_busy(&mut self, probe: BusyProbe) -> (noted: Result<()>)
        requires
            old(self).wf(),
        ensures
            final(self).wf(),
            match probe {
                BusyProbe::Released => {
                    &&& noted matches Err(error)
                    &&& error@ == ErrorView::Protocol(
                        "READ Segment unimport succeeded with an outstanding owner"@,
                    )
                    &&& final(self)@ == old(self)@
                },
                BusyProbe::Refused(FfiError::Status(status)) if status == BUSY_STATUS => {
                    &&& noted is Ok
                    &&& final(self)@ == (ReadsView { busy_status: Some(status), ..old(self)@ })
                },
                BusyProbe::Refused(refusal) => {
                    &&& noted matches Err(error)
                    &&& error@ == refusal.mapped("busy unimport probe"@)
                    &&& final(self)@ == old(self)@
                },
            },
    {
        match probe {
            BusyProbe::Released => Err(
                protocol("READ Segment unimport succeeded with an outstanding owner"),
            ),
            BusyProbe::Refused(refusal) => {
                match refusal {
                    FfiError::Status(status) => {
                        if status == BUSY_STATUS {
                            self.busy_status = Some(status);
                            return Ok(());
                        }
                    },
                    _ => {},
                }
                Err(map_ffi_error("busy unimport probe", refusal))
            },
        }
    }

    /// Takes in a completion: its read is retired, and may not complete again.
    pub fn take(&mut self, record: ReadCompletion) -> (taken: Result<()>)
        requires
            old(self).wf(),
        ensures
            final(self).wf(),
            final(self)@ == old(self)@.after_completion(record),
            match taken {
                Ok(()) => old(self)@.completion_error(record) is None,
                Err(error) => old(self)@.completion_error(record) == Some(error@),
            },
    {
        self.opcodes.insert(record.opcode);
        self.lengths.insert(record.completion_len);
        self.local_ids.insert(record.local_id);
        self.is_jetty = self.is_jetty.note(record.is_jetty);
        self.remote_id_valid = self.remote_id_valid.note(record.remote_id_valid);
        self.imm_data_valid = self.imm_data_valid.note(record.imm_data_valid);
        assert(self@.seen =~= old(self)@.seen.with(record));
        if record.status != 0 || record.is_recv || !record.user_ctx_valid || record.event_kind != 0 {
            return Err(
                Error::Completion {
                    status: record.status,
                    opcode: record.opcode,
                    user_ctx: record.user_ctx,
                    sequence: None,
                    post_call: None,
                    post_index: None,
                    post_count: None,
                },
            );
        }
        if !self.owners.remove(&record.user_ctx) {
            assert(self@ =~= old(self)@.after_completion(record));
            return Err(
                Error::Protocol(
                    with_number("unknown or duplicate READ CQE user_ctx=", record.user_ctx, ""),
                ),
            );
        }
        self.completed = self.completed + 1;
        assert(self@ =~= old(self)@.after_completion(record));
        Ok(())
    }

    /// Whether every read has completed.
    pub fn is_complete(&self) -> (complete: bool)
        requires
            self.wf(),
        ensures
            complete == (self@.completed == self@.expected()),
    {
        self.completed == self.expected
    }

    /// Checks that every read was retired exactly once.
    pub fn check_drained(&self) -> (checked: Result<()>)
        requires
            self.wf(),
        ensures
            match checked {
                Ok(()) => self@.completed == self@.expected() && self@.owners.len() == 0,
                Err(error) => {
                    &&& self@.completed != self@.expected() || self@.owners.len() != 0
                    &&& error@ == ErrorView::Protocol("READ owner drain was not exact-once"@)
                },
            },
    {
        proof {
            if self@.owners.len() == 0 {
                self@.owners.lemma_len0_is_empty();
            }
        }
        if !self.owners.is_empty() || self.completed != self.expected {
            return Err(protocol("READ owner drain was not exact-once"));
        }
        Ok(())
    }

    /// The report on a run that ended well.
    pub fn report(self, max_read_size: u32) -> (report: RmReadProbeReport)
        requires
            self.wf(),
        ensures
            report.role@ == "child"@,
            report.transfer_bytes == self@.transfer_bytes,
            report.chunk_bytes == self@.chunk_bytes,
            report.completions == self@.completed,
            report.max_read_size == max_read_size,
            report.busy_unimport_status == self@.busy_status,
            ascending(report.opcodes@) && report.opcodes@.to_set() == self@.seen.opcodes,
            ascending(report.completion_lengths@) && report.completion_lengths@.to_set()
                == self@.seen.lengths,
            ascending(report.local_ids@) && report.local_ids@.to_set() == self@.seen.local_ids,
            report.is_jetty_values@ == flags_in_order(self@.seen.is_jetty),
            report.remote_id_valid_values@ == flags_in_order(self@.seen.remote_id_valid),
            report.imm_data_valid_values@ == flags_in_order(self@.seen.imm_data_valid),
            report.content_verified && report.owners_retired && report.clean_shutdown,
    {
        RmReadProbeReport {
            role: "child",
            transfer_bytes: self.transfer_bytes,
            chunk_bytes: self.chunk_bytes,
            completions: self.completed,
            max_read_size,
            busy_unimport_status: self.busy_status,
            opcodes: listed(&self.opcodes),
            completion_lengths: listed(&self.lengths),
            local_ids: listed(&self.local_ids),
            is_jetty_values: self.is_jetty.list(),
            remote_id_valid_values: self.remote_id_valid.list(),
            imm_data_valid_values: self.imm_data_valid.list(),
            content_verified: true,
            owners_retired: true,
            clean_shutdown: true,
        }
    }
}

/// A probe whose reads have all completed has none outstanding, and has posted exactly as many as the
/// transfer takes.
pub proof fn completed_probes_are_drained(reads: ReadsView)
    requires
        reads.wf(),
        reads.completed == reads.expected(),
    ensures
        reads.owners.len() == 0,
        reads.owners == Set::<u64>::empty(),
        reads.next == reads.expected(),
        reads.upcoming() is None,
{
    reads.owners.lemma_len0_is_empty();
}

/// The report of a parent, whose part ends with the source.
pub fn parent_report(config: &RmReadProbeConfig, max_read_size: u32) -> (report: RmReadProbeReport)
    ensures
        report.role@ == "parent"@,
        report.transfer_bytes == config.transfer_bytes,
        report.chunk_bytes == config.chunk_bytes,
        report.completions == 0,
        report.max_read_size == max_read_size,
        report.busy_unimport_status is None,
        report.opcodes@.len() == 0 && report.completion_lengths@.len() == 0
            && report.local_ids@.len() == 0,
        report.is_jetty_values@.len() == 0 && report.remote_id_valid_values@.len() == 0
            && report.imm_data_valid_values@.len() == 0,
        report.content_verified && report.owners_retired && report.clean_shutdown,
{
    RmReadProbeReport {
        role: "parent",
        transfer_bytes: config.transfer_bytes,
        chunk_bytes: config.chunk_bytes,
        completions: 0,
        max_read_size,
        busy_unimport_status: None,
        opcodes: Vec::new(),
        completion_lengths: Vec::new(),
        local_ids: Vec::new(),
        is_jetty_values: Vec::new(),
        remote_id_valid_values: Vec::new(),
        imm_data_valid_values: Vec::new(),
        content_verified: true,
        owners_retired: true,
        clean_shutdown: true,
    }
}

/// Numbers as a list.
pub open spec fn number_list(values: Seq<u32>) -> Seq<char> {
    "["@ + text::joined(Seq::new(values.len(), |i: int| text::decimal(values[i] as nat)), ", "@)
        + "]"@
}

/// Truth values as a list.
pub open spec fn flag_list(values: Seq<bool>) -> Seq<char> {
    "["@ + text::joined(Seq::new(values.len(), |i: int| json::boolean(values[i])), ", "@) + "]"@
}

fn list_numbers(values: &Vec<u32>) -> (list: String)
    ensures
        list@ == number_list(values@),
{
    let mut parts: Vec<String> = Vec::new();
    while parts.len() < values.len()
        invariant
            parts@.len() <= values@.len(),
            forall|i: int|
                0 <= i < parts@.len() ==> (#[trigger] parts@[i])@ == text::decimal(
                    values@[i] as nat,
                ),
        decreases values@.len() - parts@.len(),
    {
        parts.push(decimal_string(values[parts.len()] as u64));
    }
    assert(text::views(parts@) =~= Seq::new(
        values@.len(),
        |i: int| text::decimal(values@[i] as nat),
    ));
    let mut list = "[".to_owned();
    list.append(join(&parts, ", ").as_str());
    list.append("]");
    list
}

fn list_flags(values: &Vec<bool>) -> (list: String)
    ensures
        list@ == flag_list(values@),
{
    let mut parts: Vec<String> = Vec::new();
    while parts.len() < values.len()
        invariant
            parts@.len() <= values@.len(),
            forall|i: int|
                0 <= i < parts@.len() ==> (#[trigger] parts@[i])@ == json::boolean(values@[i]),
        decreases values@.len() - parts@.len(),
    {
        let part = if values[parts.len()] {
            "true".to_owned()
        } else {
            "false".to_owned()
        };
        parts.push(part);
    }
    assert(text::views(parts@) =~= Seq::new(values@.len(), |i: int| json::boolean(values@[i])));
    let mut list = "[".to_owned();
    list.append(join(&parts, ", ").as_str());
    list.append("]");
    list
}

impl RmReadProbeReport {
    /// The members of the report's JSON line.
    pub open spec fn json_fields(self) -> Seq<(Seq<char>, Seq<char>)> {
        seq![
            ("state"@, json::string("passed"@)),
            ("role"@, json::string(self.role@)),
            ("transportMode"@, json::string("RM"@)),
            ("tpType"@, json::string("RTP"@)),
            ("transferBytes"@, text::decimal(self.transfer_bytes as nat)),
            ("chunkBytes"@, text::decimal(self.chunk_bytes as nat)),
            ("completions"@, text::decimal(self.completions as nat)),
            ("maxReadSize"@, text::decimal(self.max_read_size as nat)),
            (
                "busyUnimportStatus"@,
                match self.busy_unimport_status {
                    Some(status) => text::signed_decimal(status as int),
                    None => "null"@,
                },
            ),
            ("opcodes"@, number_list(self.opcodes@)),
            ("completionLengths"@, number_list(self.completion_lengths@)),
            ("localIds"@, number_list(self.local_ids@)),
            ("isRecv"@, json::boolean(false)),
            ("userCtxValid"@, json::boolean(true)),
            ("isJettyValues"@, flag_list(self.is_jetty_values@)),
            ("remoteIdValidValues"@, flag_list(self.remote_id_valid_values@)),
            ("immDataValidValues"@, flag_list(self.imm_data_valid_values@)),
            ("contentVerified"@, json::boolean(self.content_verified)),
            ("ownersRetired"@, json::boolean(self.owners_retired)),
            ("cleanShutdown"@, json::boolean(self.clean_shutdown)),
        ]
    }

    /// The report as one line of JSON.
    pub fn to_json(&self) -> (line: String)
        ensures
            line@ == json::object(self.json_fields()),
    {
        let mut busy = String::new();
        match self.busy_unimport_status {
            Some(status) => {
                push_signed(&mut busy, status);
            },
            None => {
                busy.append("null");
            },
        }
        proof {
            match self.busy_unimport_status {
                Some(status) => {
                    assert(busy@ =~= text::signed_decimal(status as int));
                },
                None => {
                    assert(busy@ =~= "null"@);
                },
            }
        }
        let mut object = JsonObject::new();
        object.text("state", "passed");
        object.text("role", self.role);
        object.text("transportMode", "RM");
        object.text("tpType", "RTP");
        object.number("transferBytes", self.transfer_bytes as u64);
        object.number("chunkBytes", self.chunk_bytes as u64);
        object.number("completions", self.completions as u64);
        object.number("maxReadSize", self.max_read_size as u64);
        object.raw("busyUnimportStatus", busy.as_str());
        object.raw("opcodes", list_numbers(&self.opcodes).as_str());
        object.raw("completionLengths", list_numbers(&self.completion_lengths).as_str());
        object.raw("localIds", list_numbers(&self.local_ids).as_str());
        object.flag("isRecv", false);
        object.flag("userCtxValid", true);
        object.raw("isJettyValues", list_flags(&self.is_jetty_values).as_str());
        object.raw("remoteIdValidValues", list_flags(&self.remote_id_valid_values).as_str());
        object.raw("immDataValidValues", list_flags(&self.imm_data_valid_values).as_str());
        object.flag("contentVerified", self.content_verified);
        object.flag("ownersRetired", self.owners_retired);
        object.flag("cleanShutdown", self.clean_shutdown);
        assert(object@ =~= self.json_fields());
        object.finish()
    }
}

} // verus!
