//! What a benchmark run is set up with: its profile, its source and destination,
//! its runtime configuration, its receive windows and its checksum workers.

use vstd::prelude::*;

use super::{aligned, derive_urma_slot_size, receive_credit_target};
use crate::benchmark;
use crate::benchmark::{BenchmarkCase, BenchmarkScenario, FileSource, MemorySource};
use crate::digest;
use crate::error::{invalid, Error, ErrorView, Result};
use crate::runtime::RuntimeConfig;
use crate::text;
use crate::text::{with_number, with_numbers, Text};

verus! {

/// How many windows of receives a verifying child keeps registered.
pub const VERIFIED_RX_POOL_WINDOWS: usize = 32;

/// The most checksum workers.
pub const MAX_CRC_WORKERS: usize = 32;

/// The most sends per completion asked for.
pub const SEND_COMPLETION_INTERVAL: usize = 100;

/// The byte that a fixed payload repeats.
pub const FIXED_PAYLOAD_BYTE: u8 = 0x5a;

/// The largest number of chunks, at most a window's worth, that divides the receive slots evenly.
pub open spec fn window_chunks(window: nat, rx_slots: nat, chunks: nat) -> bool {
    let upper = if window <= rx_slots {
        window
    } else {
        rx_slots
    };
    &&& 1 <= chunks <= upper
    &&& rx_slots % chunks == 0
    &&& forall|larger: nat| chunks < larger <= upper ==> #[trigger] (rx_slots % larger) != 0
}

/// How many chunks a registered receive window holds.
pub fn registered_rx_window_chunks(application_window: usize, rx_slots: usize) -> (chunks: Result<
    usize,
>)
    ensures
        match chunks {
            Ok(chunks) => window_chunks(
                application_window as nat,
                rx_slots as nat,
                chunks as nat,
            ),
            Err(error) => {
                &&& application_window == 0 || rx_slots == 0
                &&& error@ == ErrorView::InvalidConfiguration(
                    "cannot partition RX slots into registered windows"@,
                )
            },
        },
{
    let upper: usize = if application_window <= rx_slots {
        application_window
    } else {
        rx_slots
    };
    let mut candidate: usize = upper;
    while candidate > 0
        invariant
            candidate <= upper,
            upper == if application_window <= rx_slots {
                application_window
            } else {
                rx_slots
            },
            forall|larger: nat|
                candidate < larger <= upper ==> #[trigger] (rx_slots as nat % larger) != 0,
            candidate == 0 ==> upper == 0,
        decreases candidate,
    {
        if rx_slots % candidate == 0 {
            assert(rx_slots as nat % candidate as nat == 0);
            return Ok(candidate);
        }
        proof {
            assert(rx_slots as nat % candidate as nat != 0);
            if candidate == 1 {
                assert(rx_slots as nat % 1 == 0);
            }
        }
        candidate = candidate - 1;
    }
    Err(invalid("cannot partition RX slots into registered windows"))
}

/// How many receives are reposted: as many as are needed and have a free slot.
pub fn bounded_repost_count(posts_needed: usize, free_rx_slots: usize) -> (count: usize)
    ensures
        count == if posts_needed <= free_rx_slots {
            posts_needed
        } else {
            free_rx_slots
        },
{
    if posts_needed <= free_rx_slots {
        posts_needed
    } else {
        free_rx_slots
    }
}

/// How a run moves and checks its payload.
#[derive(Clone, Copy, Debug, Eq, PartialEq, Structural)]
pub enum UrmaBenchmarkProfile {
    Normal,
    /// Reuse one immutable registered TX address for every logical SEND while preserving distinct
    /// work request ownership and end-to-end CRC verification.
    FixedTx,
    Rx128,
    FixedTxRx128,
    /// Time the data plane independently, but retain every registered receive window until its
    /// full CRC has been computed after the transport sample.
    TransportOnly,
    /// Combine immutable registered TX reuse with deferred verification and full-payload
    /// registered RX backing.
    FixedTxTransportOnly,
}

impl Default for UrmaBenchmarkProfile {
    fn default() -> (profile: Self)
        ensures
            profile == UrmaBenchmarkProfile::Normal,
    {
        UrmaBenchmarkProfile::Normal
    }
}

impl UrmaBenchmarkProfile {
    /// The byte that stands for the profile on the wire.
    pub open spec fn wire(self) -> u8 {
        match self {
            UrmaBenchmarkProfile::Normal => 0,
            UrmaBenchmarkProfile::FixedTx => 1,
            UrmaBenchmarkProfile::Rx128 => 2,
            UrmaBenchmarkProfile::FixedTxRx128 => 3,
            UrmaBenchmarkProfile::TransportOnly => 4,
            UrmaBenchmarkProfile::FixedTxTransportOnly => 5,
        }
    }

    /// Whether every send takes its bytes from one shared range.
    pub open spec fn fixed(self) -> bool {
        self == UrmaBenchmarkProfile::FixedTx || self == UrmaBenchmarkProfile::FixedTxRx128 || self
            == UrmaBenchmarkProfile::FixedTxTransportOnly
    }

    /// Whether the payload is verified only after the measurement.
    pub open spec fn deferred(self) -> bool {
        self == UrmaBenchmarkProfile::TransportOnly || self
            == UrmaBenchmarkProfile::FixedTxTransportOnly
    }

    /// The number of receive slots of one side, or why there is none.
    pub open spec fn slots(self, case: BenchmarkCase, child: bool) -> core::result::Result<
        nat,
        ErrorView,
    > {
        let window = case.window as nat;
        if self.deferred() && child {
            let chunks = benchmark::chunks_of(case.transfer_bytes as nat, case.chunk_size as nat);
            let slots = if chunks < u64::MAX {
                chunks + 1
            } else {
                chunks
            };
            if case.chunk_size == 0 {
                Err(ErrorView::InvalidConfiguration("chunk_size must be non-zero"@))
            } else if slots > usize::MAX {
                Err(
                    ErrorView::InvalidConfiguration(
                        "transport-only RX slot count exceeds usize"@,
                    ),
                )
            } else {
                Ok(slots)
            }
        } else if self == UrmaBenchmarkProfile::Rx128 || self
            == UrmaBenchmarkProfile::FixedTxRx128 {
            Ok(128)
        } else if !child {
            Ok(512)
        } else if window * 32 > usize::MAX {
            Err(ErrorView::InvalidConfiguration("verified RX pool slot count overflow"@))
        } else if 512 + (window - 1) > usize::MAX {
            Err(ErrorView::InvalidConfiguration("verified RX pool rounding overflow"@))
        } else if window * 32 >= aligned(512, window) {
            Ok(window * 32)
        } else {
            Ok(aligned(512, window))
        }
    }

    /// The byte that stands for the profile on the wire.
    pub fn wire_id(self) -> (id: u8)
        ensures
            id == self.wire(),
    {
        match self {
            UrmaBenchmarkProfile::Normal => 0,
            UrmaBenchmarkProfile::FixedTx => 1,
            UrmaBenchmarkProfile::Rx128 => 2,
            UrmaBenchmarkProfile::FixedTxRx128 => 3,
            UrmaBenchmarkProfile::TransportOnly => 4,
            UrmaBenchmarkProfile::FixedTxTransportOnly => 5,
        }
    }

    pub fn uses_fixed_tx(self) -> (fixed: bool)
        ensures
            fixed == self.fixed(),
    {
        match self {
            UrmaBenchmarkProfile::FixedTx => true,
            UrmaBenchmarkProfile::FixedTxRx128 => true,
            UrmaBenchmarkProfile::FixedTxTransportOnly => true,
            _ => false,
        }
    }

    pub fn transport_only(self) -> (deferred: bool)
        ensures
            deferred == self.deferred(),
    {
        match self {
            UrmaBenchmarkProfile::TransportOnly => true,
            UrmaBenchmarkProfile::FixedTxTransportOnly => true,
            _ => false,
        }
    }

    /// Whether the number of receive slots of a side follows from the window.
    pub open spec fn by_window(self, child: bool) -> bool {
        &&& child
        &&& !self.deferred()
        &&& self != UrmaBenchmarkProfile::Rx128
        &&& self != UrmaBenchmarkProfile::FixedTxRx128
    }

    /// Whether a side divides its receive slots by the window, which must then not be zero.
    pub fn divides_by_window(self, child: bool) -> (divides: bool)
        ensures
            divides == self.by_window(child),
    {
        child && !self.transport_only() && match self {
            UrmaBenchmarkProfile::Rx128 => false,
            UrmaBenchmarkProfile::FixedTxRx128 => false,
            _ => true,
        }
    }

    /// The number of receive slots of one side.
    pub fn rx_slots(self, case: &BenchmarkCase, child: bool) -> (slots: Result<usize>)
        requires
            self.by_window(child) ==> case.window >= 1,
        ensures
            match slots {
                Ok(slots) => self.slots(*case, child) == Ok::<nat, ErrorView>(slots as nat),
                Err(error) => self.slots(*case, child) == Err::<nat, ErrorView>(error@),
            },
    {
        if self.transport_only() && child {
            let count: u64 = match case.chunk_count() {
                Ok(count) => count,
                Err(error) => {
                    return Err(error);
                },
            };
            let slots: u64 = count.saturating_add(1);
            if slots > usize::MAX as u64 {
                return Err(invalid("transport-only RX slot count exceeds usize"));
            }
            return Ok(slots as usize);
        }
        match self {
            UrmaBenchmarkProfile::Rx128 => {
                return Ok(128);
            },
            UrmaBenchmarkProfile::FixedTxRx128 => {
                return Ok(128);
            },
            _ => {},
        }
        if !child {
            return Ok(512);
        }
        let window: usize = case.window as usize;
        let pipeline: usize = match window.checked_mul(VERIFIED_RX_POOL_WINDOWS) {
            Some(pipeline) => pipeline,
            None => {
                return Err(invalid("verified RX pool slot count overflow"));
            },
        };
        let sum: usize = match 512usize.checked_add(window - 1) {
            Some(sum) => sum,
            None => {
                return Err(invalid("verified RX pool rounding overflow"));
            },
        };
        proof {
            let count = (sum / window) as int;
            assert(0 <= count * window <= sum) by (nonlinear_arith)
                requires
                    window > 0,
                    count == sum / window,
            ;
        }
        let minimum: usize = sum / window * window;
        if pipeline >= minimum {
            Ok(pipeline)
        } else {
            Ok(minimum)
        }
    }
}

/// Where a run's bytes come from.
pub enum UrmaBenchmarkSource {
    Memory(MemorySource),
    /// A memory source that is not there: the data plane supplies one immutable registered chunk,
    /// so the full transfer is not materialized.
    FixedMemory { length: u64 },
    File(FileSource),
}

impl UrmaBenchmarkSource {
    /// The scenario that the source is for.
    pub open spec fn scenario(self) -> BenchmarkScenario {
        match self {
            UrmaBenchmarkSource::Memory(_) => BenchmarkScenario::Memory,
            UrmaBenchmarkSource::FixedMemory { .. } => BenchmarkScenario::Memory,
            UrmaBenchmarkSource::File(_) => BenchmarkScenario::File,
        }
    }

    /// The number of bytes.
    pub open spec fn length(self) -> nat {
        match self {
            UrmaBenchmarkSource::Memory(source) => source@.len(),
            UrmaBenchmarkSource::FixedMemory { length } => length as nat,
            UrmaBenchmarkSource::File(source) => source.length as nat,
        }
    }

    /// Whether the source does not fit a case.
    pub open spec fn mismatches(self, case: BenchmarkCase) -> bool {
        self.scenario() != case.scenario || self.length() != case.transfer_bytes
    }

    pub fn fixed_memory(length: u64) -> (source: Self)
        ensures
            source == (UrmaBenchmarkSource::FixedMemory { length }),
    {
        UrmaBenchmarkSource::FixedMemory { length }
    }

    /// Whether the source fits a case.
    pub fn validate(&self, case: &BenchmarkCase) -> (valid: Result<()>)
        ensures
            match valid {
                Ok(()) => !self.mismatches(*case),
                Err(error) => {
                    &&& self.mismatches(*case)
                    &&& error@ == ErrorView::InvalidConfiguration(
                        "URMA source does not match benchmark case"@,
                    )
                },
            },
    {
        let (scenario, length): (BenchmarkScenario, u64) = match self {
            UrmaBenchmarkSource::Memory(source) => (BenchmarkScenario::Memory, source.length()),
            UrmaBenchmarkSource::FixedMemory { length } => (BenchmarkScenario::Memory, *length),
            UrmaBenchmarkSource::File(source) => (BenchmarkScenario::File, source.length()),
        };
        if scenario != case.scenario || length != case.transfer_bytes {
            return Err(invalid("URMA source does not match benchmark case"));
        }
        Ok(())
    }

    /// The checksum of the bytes, where they are there.
    pub fn expected_crc32(&self) -> (crc32: Result<u32>)
        requires
            self matches UrmaBenchmarkSource::Memory(source) ==> source.wf(),
        ensures
            match self {
                UrmaBenchmarkSource::Memory(source) => crc32 == Ok::<u32, Error>(
                    digest::crc32(source@),
                ),
                UrmaBenchmarkSource::File(source) => crc32 == Ok::<u32, Error>(
                    source.expected_crc32,
                ),
                UrmaBenchmarkSource::FixedMemory { .. } => {
                    &&& crc32 matches Err(error)
                    &&& error@ == ErrorView::InvalidConfiguration(
                        "fixed memory source CRC must come from the fixed registered payload"@,
                    )
                },
            },
    {
        match self {
            UrmaBenchmarkSource::Memory(source) => Ok(source.expected_crc32()),
            UrmaBenchmarkSource::FixedMemory { length: _ } => Err(
                invalid("fixed memory source CRC must come from the fixed registered payload"),
            ),
            UrmaBenchmarkSource::File(source) => Ok(source.expected_crc32()),
        }
    }
}

/// Where a run's bytes go.
#[derive(Debug, Eq, PartialEq)]
pub enum UrmaBenchmarkDestination {
    Memory,
    /// Creates the output, or truncates it.
    File(String),
    /// Fails where the output exists.
    FreshFile(String),
}

impl UrmaBenchmarkDestination {
    /// The scenario that the destination is for.
    pub open spec fn scenario(self) -> BenchmarkScenario {
        match self {
            UrmaBenchmarkDestination::Memory => BenchmarkScenario::Memory,
            UrmaBenchmarkDestination::File(_) => BenchmarkScenario::File,
            UrmaBenchmarkDestination::FreshFile(_) => BenchmarkScenario::File,
        }
    }

    /// Whether the destination fits a case.
    pub fn validate(&self, case: &BenchmarkCase) -> (valid: Result<()>)
        ensures
            match valid {
                Ok(()) => self.scenario() == case.scenario,
                Err(error) => {
                    &&& self.scenario() != case.scenario
                    &&& error@ == ErrorView::InvalidConfiguration(
                        "URMA destination does not match benchmark case"@,
                    )
                },
            },
    {
        let scenario = match self {
            UrmaBenchmarkDestination::Memory => BenchmarkScenario::Memory,
            UrmaBenchmarkDestination::File(_) => BenchmarkScenario::File,
            UrmaBenchmarkDestination::FreshFile(_) => BenchmarkScenario::File,
        };
        if scenario != case.scenario {
            return Err(invalid("URMA destination does not match benchmark case"));
        }
        Ok(())
    }
}

/// Why a parent refuses its source or profile, if it refuses.
pub open spec fn parent_error(
    case: BenchmarkCase,
    source: UrmaBenchmarkSource,
    profile: UrmaBenchmarkProfile,
) -> Option<ErrorView> {
    if source.mismatches(case) {
        Some(ErrorView::InvalidConfiguration("URMA source does not match benchmark case"@))
    } else if profile.fixed() && (case.scenario != BenchmarkScenario::Memory || case.transfer_bytes
        == 0 || case.transfer_bytes % case.chunk_size != 0) {
        Some(
            ErrorView::InvalidConfiguration(
                "fixed-tx profile requires a non-empty, chunk-aligned memory case"@,
            ),
        )
    } else if source is FixedMemory && !profile.fixed() {
        Some(
            ErrorView::InvalidConfiguration(
                "fixed memory source requires a fixed-tx benchmark profile"@,
            ),
        )
    } else {
        None
    }
}

/// Whether a parent can run a case from a source in a profile.
pub fn check_parent(
    case: &BenchmarkCase,
    source: &UrmaBenchmarkSource,
    profile: UrmaBenchmarkProfile,
) -> (checked: Result<()>)
    requires
        profile.fixed() && case.scenario is Memory && case.transfer_bytes != 0 ==> case.chunk_size
            > 0,
    ensures
        match checked {
            Ok(()) => parent_error(*case, *source, profile) is None,
            Err(error) => parent_error(*case, *source, profile) == Some(error@),
        },
{
    match source.validate(case) {
        Ok(()) => {},
        Err(error) => {
            return Err(error);
        },
    }
    if profile.uses_fixed_tx() && (case.scenario != BenchmarkScenario::Memory || case.transfer_bytes
        == 0 || case.transfer_bytes % case.chunk_size != 0) {
        return Err(invalid("fixed-tx profile requires a non-empty, chunk-aligned memory case"));
    }
    match source {
        UrmaBenchmarkSource::FixedMemory { length: _ } => {
            if !profile.uses_fixed_tx() {
                return Err(invalid("fixed memory source requires a fixed-tx benchmark profile"));
            }
        },
        _ => {},
    }
    Ok(())
}

/// Why a run has no runtime configuration, if it has none.
pub open spec fn runtime_error(case: BenchmarkCase, profile: UrmaBenchmarkProfile, child: bool) -> Option<
    ErrorView,
> {
    if super::slot_size_error(case.chunk_size, 4096) is Some {
        super::slot_size_error(case.chunk_size, 4096)
    } else {
        match profile.slots(case, child) {
            Err(error) => Some(error),
            Ok(slots) => run_pool(case, profile, slots).layout_error(),
        }
    }
}

/// The slot pool of a run.
pub open spec fn run_pool(case: BenchmarkCase, profile: UrmaBenchmarkProfile, rx_slots: nat) -> crate::buffer::BufferPoolConfig {
    crate::buffer::BufferPoolConfig {
        slot_size: aligned(case.chunk_size as nat, 4096) as usize,
        tx_slot_count: 128,
        rx_slot_count: rx_slots as usize,
        alignment: 4096,
        alias_tx_slots: profile.fixed(),
    }
}

/// The runtime configuration of one side of a run.
pub fn benchmark_runtime_config<T: Text>(
    case: &BenchmarkCase,
    device: T,
    eid_index: u32,
    profile: UrmaBenchmarkProfile,
    child: bool,
) -> (config: Result<RuntimeConfig>)
    requires
        profile.by_window(child) ==> case.window >= 1,
    ensures
        match config {
            Ok(config) => {
                &&& runtime_error(*case, profile, child) is None
                &&& config.device_name@ == device.text()
                &&& config.eid_index == eid_index
                &&& config.send_jfc_depth == 4096
                &&& config.recv_jfc_depth == 4096
                &&& profile.slots(*case, child) matches Ok(slots)
                &&& config.buffer_pool == run_pool(*case, profile, slots)
            },
            Err(error) => runtime_error(*case, profile, child) == Some(error@),
        },
{
    let mut config = RuntimeConfig::new(device, eid_index);
    match derive_urma_slot_size(case, config.buffer_pool.alignment) {
        Ok(slot_size) => {
            config.buffer_pool.slot_size = slot_size;
        },
        Err(error) => {
            return Err(error);
        },
    }
    config.buffer_pool.alias_tx_slots = profile.uses_fixed_tx();
    match profile.rx_slots(case, child) {
        Ok(slots) => {
            config.buffer_pool.rx_slot_count = slots;
        },
        Err(error) => {
            return Err(error);
        },
    }
    match config.buffer_pool.total_len() {
        Ok(_) => Ok(config),
        Err(error) => Err(error),
    }
}

/// The receive windows of a child.
#[derive(Clone, Copy, Debug, Eq, PartialEq, Structural)]
pub struct WindowPlan {
    /// How many chunks one window holds.
    pub chunks: usize,
    /// How many windows the receive slots make.
    pub count: usize,
}

/// How a child divides its receive slots into windows.
pub fn plan_windows(case: &BenchmarkCase, profile: UrmaBenchmarkProfile, rx_slot_count: usize) -> (plan:
    Result<WindowPlan>)
    requires
        profile.deferred() ==> case.window >= 1,
    ensures
        match plan {
            Ok(plan) => {
                &&& plan.chunks > 0
                &&& plan.count == rx_slot_count / plan.chunks
                &&& if profile.deferred() {
                    plan.chunks == case.window
                } else {
                    window_chunks(case.window as nat, rx_slot_count as nat, plan.chunks as nat)
                }
            },
            Err(error) => {
                &&& !profile.deferred()
                &&& rx_slot_count == 0 || case.window == 0
                &&& error@ == ErrorView::InvalidConfiguration(
                    "cannot partition RX slots into registered windows"@,
                )
            },
        },
{
    let chunks: usize = if profile.transport_only() {
        case.window as usize
    } else {
        match registered_rx_window_chunks(case.window as usize, rx_slot_count) {
            Ok(chunks) => chunks,
            Err(error) => {
                return Err(error);
            },
        }
    };
    Ok(WindowPlan { chunks, count: rx_slot_count / chunks })
}

/// The smaller of two numbers.
pub open spec fn smaller(left: nat, right: nat) -> nat {
    if left <= right {
        left
    } else {
        right
    }
}

/// The checksum workers that leave one processor for polling.
pub open spec fn affinity_budget(available_cpus: nat) -> nat {
    if available_cpus <= 2 {
        1
    } else {
        (available_cpus - 1) as nat
    }
}

/// The windows that there is work for.
pub open spec fn busy_windows(window_count: nat) -> nat {
    if window_count == 0 {
        1
    } else {
        window_count
    }
}

/// The number of checksum workers, or why the requested number is refused.
pub open spec fn crc_workers(window_count: nat, requested: Option<usize>, available_cpus: nat) -> core::result::Result<
    nat,
    ErrorView,
> {
    let budget = affinity_budget(available_cpus);
    let windows = busy_windows(window_count);
    match requested {
        None => Ok(smaller(smaller(budget, 32), windows)),
        Some(count) => if count == 0 {
            Err(ErrorView::InvalidConfiguration("CRC worker count must be non-zero"@))
        } else if count > 32 {
            Err(
                ErrorView::InvalidConfiguration(
                    "CRC worker count "@ + text::decimal(count as nat) + " exceeds maximum 32"@,
                ),
            )
        } else if count > budget {
            Err(
                ErrorView::InvalidConfiguration(
                    "CRC worker count "@ + text::decimal(count as nat)
                        + " exceeds affinity budget "@ + text::decimal(budget)
                        + "; reserve one CPU for RX polling"@,
                ),
            )
        } else if count > windows {
            Err(
                ErrorView::InvalidConfiguration(
                    "CRC worker count "@ + text::decimal(count as nat)
                        + " exceeds registered window count "@ + text::decimal(windows) + ""@,
                ),
            )
        } else {
            Ok(count as nat)
        },
    }
}

/// The number of checksum workers.
pub fn select_crc_worker_count(
    window_count: usize,
    requested: Option<usize>,
    available_cpus: usize,
) -> (count: Result<usize>)
    ensures
        ({
            let expected = crc_workers(window_count as nat, requested, available_cpus as nat);
            match count {
                Ok(count) => expected == Ok::<nat, ErrorView>(count as nat),
                Err(error) => expected == Err::<nat, ErrorView>(error@),
            }
        }),
{
    let budget: usize = if available_cpus <= 2 {
        1
    } else {
        available_cpus - 1
    };
    let windows: usize = if window_count == 0 {
        1
    } else {
        window_count
    };
    match requested {
        None => {
            let capped: usize = if budget <= MAX_CRC_WORKERS {
                budget
            } else {
                MAX_CRC_WORKERS
            };
            if capped <= windows {
                Ok(capped)
            } else {
                Ok(windows)
            }
        },
        Some(count) => {
            if count == 0 {
                Err(invalid("CRC worker count must be non-zero"))
            } else if count > MAX_CRC_WORKERS {
                Err(
                    Error::InvalidConfiguration(
                        with_number("CRC worker count ", count as u64, " exceeds maximum 32"),
                    ),
                )
            } else if count > budget {
                Err(
                    Error::InvalidConfiguration(
                        with_numbers(
                            "CRC worker count ",
                            count as u64,
                            " exceeds affinity budget ",
                            budget as u64,
                            "; reserve one CPU for RX polling",
                        ),
                    ),
                )
            } else if count > windows {
                Err(
                    Error::InvalidConfiguration(
                        with_numbers(
                            "CRC worker count ",
                            count as u64,
                            " exceeds registered window count ",
                            windows as u64,
                            "",
                        ),
                    ),
                )
            } else {
                Ok(count)
            }
        },
    }
}

/// The messages that a child has still to receive: every chunk, and the end.
pub fn message_count(case: &BenchmarkCase) -> (count: Result<usize>)
    requires
        case.chunk_size > 0 ==> benchmark::chunks_of(
            case.transfer_bytes as nat,
            case.chunk_size as nat,
        ) < u64::MAX,
    ensures
        ({
            let messages = benchmark::chunks_of(
                case.transfer_bytes as nat,
                case.chunk_size as nat,
            ) + 1;
            match count {
                Ok(count) => case.chunk_size > 0 && count == messages,
                Err(error) => if case.chunk_size == 0 {
                    error@ == ErrorView::InvalidConfiguration("chunk_size must be non-zero"@)
                } else {
                    &&& messages > usize::MAX
                    &&& error@ == ErrorView::InvalidConfiguration(
                        "receive message count exceeds usize"@,
                    )
                },
            }
        }),
{
    match case.chunk_count() {
        Ok(chunks) => {
            let messages: u64 = chunks + 1;
            if messages > usize::MAX as u64 {
                return Err(invalid("receive message count exceeds usize"));
            }
            Ok(messages as usize)
        },
        Err(error) => Err(error),
    }
}

/// How many receives a child keeps posted: no more than its slots, its queue and its messages.
pub fn posted_credit(rx_slots: usize, recv_depth: usize, window: usize, messages: usize) -> (credit:
    Result<usize>)
    ensures
        ({
            let target = smaller(smaller(rx_slots as nat, recv_depth as nat), messages as nat);
            match credit {
                Ok(credit) => credit == target && target > 0,
                Err(error) => {
                    &&& target == 0
                    &&& error@ == ErrorView::InvalidConfiguration(
                        "receive credit target must be non-zero"@,
                    )
                },
            }
        }),
{
    let capacity: usize = if rx_slots <= recv_depth {
        rx_slots
    } else {
        recv_depth
    };
    receive_credit_target(window, capacity, messages)
}

} // verus!
