//! Transport laboratory: wire formats, flow control, slot ownership and
//! benchmark bookkeeping of a send/receive transport, with verified contracts.

pub mod benchmark;
pub mod buffer;
pub mod bytes;
pub mod cli;
pub mod completion;
pub mod connection;
pub mod demo;
pub mod digest;
pub mod error;
pub mod file_comparison;
pub mod jetty;
pub mod json;
pub mod message;
pub mod oob;
pub mod provider;
pub mod rm_read_probe;
pub mod runtime;
pub mod send_imm_probe;
pub mod sha256;
pub mod tcp_benchmark;
pub mod text;
pub mod transfer;
pub mod urma_benchmark;
pub mod wr;

use vstd::prelude::*;

pub use benchmark::{
    BenchmarkCase, BenchmarkResult, BenchmarkScenario, BenchmarkSink, BenchmarkTimer,
    BenchmarkTransport, CpuUsage, FileCompletionPolicy, FileSink, FileSource, IntegrityResult,
    MemorySink, MemorySource, TimingMode, TimingSample,
};
pub use buffer::{BufferPoolConfig, SlotId, SlotKind, SlotState, SlotStateSnapshot};
pub use completion::{CompletionDiagnostic, CompletionEvent, CompletionStats, PendingWrSnapshot};
pub use connection::{ConnectionState, UrmaConnection};
pub use digest::{crc32_bytes, crc32_reader, format_crc32_digest, parse_crc32_digest, Crc32Hasher};
pub use error::{Error, ErrorView, Result};
pub use file_comparison::{
    B4Aggregate, B4CaseStatus, B4ExecutionOutcome, B4FileMatrixConfig, B4FileMatrixRunner,
    B4FileRunRecord, B4Report, B4TransportDispatch,
};
pub use jetty::{JettyConfig, JettyDescriptor, JETTY_DESCRIPTOR_VERSION, MAX_JETTY_DESCRIPTOR_LEN};
pub use message::{
    DigestAlgorithm, DigestDescriptor, IntegrationMessageBodyV3, IntegrationMessageTypeV3,
    IntegrationMessageV3, Message, MessageBody, MessageType,
};
pub use runtime::{
    abi_baseline, AbiBaseline, DeviceEid, RuntimeConfig, UrmaDeviceCapability, UrmaRuntime,
};
pub use tcp_benchmark::{TcpBenchmarkDestination, TcpBenchmarkSource, TcpTransportStats};
pub use transfer::{digest_reader, hex_digest, ReceiveState, TransferSummary};
pub use urma_benchmark::{
    derive_urma_slot_size, validate_urma_case, PipelineTracker, ReceiveCreditController,
    RemoteCreditReturn, RemoteReceiveCredit, UrmaBenchmarkDestination, UrmaBenchmarkProfile,
    UrmaBenchmarkSource, UrmaPipelineLimits, UrmaReceiveState, URMA_PROTOCOL_HEADER_LEN,
};
pub use urma_benchmark::stats::UrmaTransportStats;

verus! {

/// The steps by which the transport was brought up, in their order.
#[derive(Clone, Copy, Debug, Eq, PartialEq)]
pub enum PrototypeMilestone {
    CreateCompletionQueues,
    CreateDuplexJetty,
    ExchangeJettyDescriptor,
    BindRemoteJetty,
    PostReceive,
    PostSend,
    PollCompletionQueue,
}

} // verus!
