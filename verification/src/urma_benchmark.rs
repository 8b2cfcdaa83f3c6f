//! Bounded-pipeline policy of the URMA benchmark: what a case may ask for, how
//! many sends and receives may be outstanding, and how receive credit travels.

use vstd::prelude::*;

use crate::benchmark::{BenchmarkCase, BenchmarkTransport};
use crate::buffer;
use crate::buffer::is_power_of_two;
use crate::completion;
use crate::completion::{duration_ns_saturating, max_u64};
use crate::error::{invalid, protocol, Error, ErrorView, Result};
use crate::jetty::JettyConfig;
use crate::runtime::RuntimeConfig;
use crate::text;
use crate::text::{push_decimal, with_number, with_numbers};

pub mod control;
pub mod flow;
pub mod laws;
pub mod layout;
pub mod profile;
pub mod receive;
pub mod reporting;
pub mod receiver;
pub mod sender;
pub mod stats;
pub mod window;

pub use profile::{UrmaBenchmarkDestination, UrmaBenchmarkProfile, UrmaBenchmarkSource};
pub use receive::UrmaReceiveState;

verus! {

pub const URMA_PROTOCOL_HEADER_LEN: usize = 24;

/// Whether nothing has happened for as long as `timeout`. All three are nanoseconds.
pub fn idle_timeout_elapsed(last_progress: u128, now: u128, timeout: u128) -> (elapsed: bool)
    ensures
        elapsed == (timeout == 0 || now >= last_progress + timeout),
{
    let idle: u128 = if now >= last_progress {
        now - last_progress
    } else {
        0
    };
    idle >= timeout
}

/// A ratio in units of one part in `scale`, rounded down; zero where there is no whole.
pub open spec fn ratio(numerator: u64, denominator: u64, scale: u64) -> u64 {
    if denominator == 0 {
        0
    } else {
        let scaled = (numerator * scale) / denominator as int;
        if scaled <= u64::MAX {
            scaled as u64
        } else {
            u64::MAX
        }
    }
}

/// A ratio in units of one part in `scale`.
pub fn scaled_ratio(numerator: u64, denominator: u64, scale: u64) -> (scaled: u64)
    ensures
        scaled == ratio(numerator, denominator, scale),
{
    if denominator == 0 {
        return 0;
    }
    assert(numerator * scale <= u64::MAX * u64::MAX) by (nonlinear_arith)
        requires
            numerator <= u64::MAX,
            scale <= u64::MAX,
    ;
    let product: u128 = numerator as u128 * scale as u128;
    let scaled: u128 = product / denominator as u128;
    if scaled > u64::MAX as u128 {
        u64::MAX
    } else {
        scaled as u64
    }
}

/// The smallest multiple of `alignment` that is at least `length`.
pub open spec fn aligned(length: nat, alignment: nat) -> nat {
    crate::benchmark::chunks_of(length, alignment) * alignment
}

/// Why no slot size follows from a chunk size and an alignment, if none follows.
pub open spec fn slot_size_error(chunk_size: u64, alignment: usize) -> Option<ErrorView> {
    if alignment * 8 < usize::BITS || !buffer::power_of_two(alignment as nat) {
        Some(
            ErrorView::InvalidConfiguration(
                "URMA slot alignment must be a power of two and at least pointer-sized"@,
            ),
        )
    } else if chunk_size > usize::MAX {
        Some(ErrorView::InvalidConfiguration("chunk_size does not fit this platform's usize"@))
    } else if chunk_size + (alignment - 1) > usize::MAX {
        Some(ErrorView::InvalidConfiguration("aligned URMA slot_size overflow"@))
    } else {
        None
    }
}

/// The registered slot of the benchmark. `chunk_size` remains the payload size; only the backing
/// slot is rounded up. Bulk data travels without a header, so a slot holds one whole chunk.
pub fn derive_urma_slot_size(case: &BenchmarkCase, alignment: usize) -> (slot: Result<usize>)
    ensures
        match slot {
            Ok(slot) => {
                &&& slot_size_error(case.chunk_size, alignment) is None
                &&& slot == aligned(case.chunk_size as nat, alignment as nat)
            },
            Err(error) => slot_size_error(case.chunk_size, alignment) == Some(error@),
        },
{
    if alignment < (usize::BITS / 8) as usize || !is_power_of_two(alignment) {
        return Err(
            invalid("URMA slot alignment must be a power of two and at least pointer-sized"),
        );
    }
    let chunk_size: usize = match case.chunk_size_usize() {
        Ok(chunk_size) => chunk_size,
        Err(error) => {
            return Err(error);
        },
    };
    match chunk_size.checked_add(alignment - 1) {
        Some(sum) => {
            proof {
                let slots = (sum / alignment) as int;
                assert(slots * alignment <= sum) by (nonlinear_arith)
                    requires
                        alignment > 0,
                        slots == sum / alignment,
                ;
                assert(slots * alignment >= 0) by (nonlinear_arith)
                    requires
                        slots >= 0,
                        alignment > 0,
                ;
            }
            Ok(sum / alignment * alignment)
        },
        None => Err(invalid("aligned URMA slot_size overflow")),
    }
}

/// A slot holds its chunk, starts at a multiple of the alignment, and is no larger than that asks.
pub proof fn slots_are_aligned_and_tight(length: nat, alignment: nat)
    requires
        alignment > 0,
    ensures
        aligned(length, alignment) >= length,
        aligned(length, alignment) < length + alignment,
        aligned(length, alignment) % alignment == 0,
{
    let count = crate::benchmark::chunks_of(length, alignment);
    crate::benchmark::chunks_cover_the_transfer(length, alignment);
    vstd::arithmetic::div_mod::lemma_mod_multiples_basic(count as int, alignment as int);
    assert(length > 0 ==> count * alignment < length + alignment) by (nonlinear_arith)
        requires
            alignment > 0,
            length > 0 ==> count > 0 && (count - 1) * alignment < length,
    ;
    assert(count == 0 ==> count * alignment == 0) by (nonlinear_arith);
}

/// What bounds the pipeline of a case.
#[derive(Clone, Copy, Debug, Eq, PartialEq, Structural)]
pub struct UrmaPipelineLimits {
    pub slot_size: usize,
    pub tx_slot_count: usize,
    pub rx_slot_count: usize,
    pub send_jfc_depth: u32,
    pub recv_jfc_depth: u32,
    pub jetty_send_depth: u32,
    pub jetty_recv_depth: u32,
    pub provider_max_message_size: u64,
}

impl UrmaPipelineLimits {
    /// The limits of a configuration.
    pub fn from_configs(runtime: &RuntimeConfig, jetty: &JettyConfig) -> (limits: Self)
        ensures
            limits == (UrmaPipelineLimits {
                slot_size: runtime.buffer_pool.slot_size,
                tx_slot_count: runtime.buffer_pool.tx_slot_count,
                rx_slot_count: runtime.buffer_pool.rx_slot_count,
                send_jfc_depth: runtime.send_jfc_depth,
                recv_jfc_depth: runtime.recv_jfc_depth,
                jetty_send_depth: jetty.send_depth,
                jetty_recv_depth: jetty.recv_depth,
                provider_max_message_size: u64::MAX,
            }),
    {
        UrmaPipelineLimits {
            slot_size: runtime.buffer_pool.slot_size,
            tx_slot_count: runtime.buffer_pool.tx_slot_count,
            rx_slot_count: runtime.buffer_pool.rx_slot_count,
            send_jfc_depth: runtime.send_jfc_depth,
            recv_jfc_depth: runtime.recv_jfc_depth,
            jetty_send_depth: jetty.send_depth,
            jetty_recv_depth: jetty.recv_depth,
            provider_max_message_size: u64::MAX,
        }
    }

    /// The same limits on a provider with this message size.
    pub fn with_provider_max_message_size(self, value: u64) -> (limits: Self)
        ensures
            limits == (UrmaPipelineLimits { provider_max_message_size: value, ..self }),
    {
        UrmaPipelineLimits { provider_max_message_size: value, ..self }
    }

    /// The largest payload of one message.
    pub open spec fn payload_limit(self) -> u64 {
        if self.slot_size <= self.provider_max_message_size {
            self.slot_size as u64
        } else {
            self.provider_max_message_size
        }
    }

    /// The name and the value of the first limit that a window exceeds, if it exceeds one.
    pub open spec fn exceeded(self, window: u32) -> Option<(Seq<char>, nat)> {
        if window > self.tx_slot_count {
            Some(("TX slot count"@, self.tx_slot_count as nat))
        } else if window > self.rx_slot_count {
            Some(("RX slot count"@, self.rx_slot_count as nat))
        } else if window > self.send_jfc_depth {
            Some(("send JFC depth"@, self.send_jfc_depth as nat))
        } else if window > self.recv_jfc_depth {
            Some(("receive JFC depth"@, self.recv_jfc_depth as nat))
        } else if window > self.jetty_send_depth {
            Some(("Jetty send depth"@, self.jetty_send_depth as nat))
        } else if window > self.jetty_recv_depth {
            Some(("Jetty receive depth"@, self.jetty_recv_depth as nat))
        } else {
            None
        }
    }

    /// Why a case is refused under these limits, if it is refused.
    pub open spec fn case_error(self, case: BenchmarkCase) -> Option<ErrorView> {
        if case.error() is Some {
            case.error()
        } else if case.transport != BenchmarkTransport::Urma {
            Some(ErrorView::InvalidConfiguration("URMA runner requires transport=urma"@))
        } else if self.exceeded(case.window) is Some {
            let (name, maximum) = self.exceeded(case.window)->0;
            Some(
                ErrorView::InvalidConfiguration(
                    "window="@ + text::decimal(case.window as nat) + " exceeds "@ + name + "="@
                        + text::decimal(maximum),
                ),
            )
        } else if case.chunk_size > self.payload_limit() {
            Some(
                ErrorView::InvalidConfiguration(
                    "chunk_size="@ + text::decimal(case.chunk_size as nat)
                        + " exceeds effective URMA payload limit "@ + text::decimal(
                        self.payload_limit() as nat,
                    ) + " (slot_size="@ + text::decimal(self.slot_size as nat)
                        + ", provider_max_message_size="@ + text::decimal(
                        self.provider_max_message_size as nat,
                    ) + ")"@,
                ),
            )
        } else if crate::benchmark::chunks_of(case.transfer_bytes as nat, case.chunk_size as nat)
            > u32::MAX {
            Some(ErrorView::InvalidConfiguration("URMA Data sequence count exceeds u32"@))
        } else {
            None
        }
    }
}

fn window_error(window: u32, name: &str, maximum: u64) -> (error: Error)
    ensures
        error@ == ErrorView::InvalidConfiguration(
            "window="@ + text::decimal(window as nat) + " exceeds "@ + name@ + "="@
                + text::decimal(maximum as nat),
        ),
{
    let mut detail = with_number("window=", window as u64, " exceeds ");
    detail.append(name);
    detail.append("=");
    push_decimal(&mut detail, maximum);
    Error::InvalidConfiguration(detail)
}

/// Whether a case can be run under these limits.
pub fn validate_urma_case(case: &BenchmarkCase, limits: UrmaPipelineLimits) -> (valid: Result<()>)
    ensures
        match valid {
            Ok(()) => limits.case_error(*case) is None,
            Err(error) => limits.case_error(*case) == Some(error@),
        },
{
    match case.validate() {
        Ok(()) => {},
        Err(error) => {
            return Err(error);
        },
    }
    if case.transport != BenchmarkTransport::Urma {
        return Err(invalid("URMA runner requires transport=urma"));
    }
    let window: u64 = case.window as u64;
    if window > limits.tx_slot_count as u64 {
        return Err(window_error(case.window, "TX slot count", limits.tx_slot_count as u64));
    }
    if window > limits.rx_slot_count as u64 {
        return Err(window_error(case.window, "RX slot count", limits.rx_slot_count as u64));
    }
    if case.window > limits.send_jfc_depth {
        return Err(window_error(case.window, "send JFC depth", limits.send_jfc_depth as u64));
    }
    if case.window > limits.recv_jfc_depth {
        return Err(window_error(case.window, "receive JFC depth", limits.recv_jfc_depth as u64));
    }
    if case.window > limits.jetty_send_depth {
        return Err(window_error(case.window, "Jetty send depth", limits.jetty_send_depth as u64));
    }
    if case.window > limits.jetty_recv_depth {
        return Err(
            window_error(case.window, "Jetty receive depth", limits.jetty_recv_depth as u64),
        );
    }
    let slot_payload: u64 = limits.slot_size as u64;
    let maximum: u64 = if slot_payload <= limits.provider_max_message_size {
        slot_payload
    } else {
        limits.provider_max_message_size
    };
    if case.chunk_size > maximum {
        let mut detail = with_numbers(
            "chunk_size=",
            case.chunk_size,
            " exceeds effective URMA payload limit ",
            maximum,
            " (slot_size=",
        );
        push_decimal(&mut detail, slot_payload);
        detail.append(", provider_max_message_size=");
        push_decimal(&mut detail, limits.provider_max_message_size);
        detail.append(")");
        return Err(Error::InvalidConfiguration(detail));
    }
    match case.chunk_count() {
        Ok(count) => {
            if count > 0xffff_ffff {
                return Err(invalid("URMA Data sequence count exceeds u32"));
            }
            Ok(())
        },
        Err(error) => Err(error),
    }
}

/// A count of outstanding sends that never exceeds its window.
#[derive(Clone, Copy, Debug, Eq, PartialEq, Structural)]
pub struct PipelineTracker {
    configured_window: usize,
    current: usize,
    maximum: usize,
}

/// What a pipeline counts.
pub struct PipelineView {
    pub window: nat,
    /// The outstanding sends.
    pub current: nat,
    /// The most sends that were ever outstanding.
    pub maximum: nat,
}

impl View for PipelineTracker {
    type V = PipelineView;

    closed spec fn view(&self) -> PipelineView {
        PipelineView {
            window: self.configured_window as nat,
            current: self.current as nat,
            maximum: self.maximum as nat,
        }
    }
}

impl PipelineView {
    /// The window is never exceeded.
    pub open spec fn wf(self) -> bool {
        0 < self.window && self.current <= self.maximum <= self.window
    }
}

impl PipelineTracker {
    /// A pipeline with nothing outstanding.
    pub fn new(window: usize) -> (tracker: Result<Self>)
        ensures
            match tracker {
                Ok(tracker) => {
                    &&& window > 0
                    &&& tracker@ == (PipelineView { window: window as nat, current: 0, maximum: 0 })
                    &&& tracker@.wf()
                },
                Err(error) => {
                    &&& window == 0
                    &&& error@ == ErrorView::InvalidConfiguration(
                        "pipeline window must be non-zero"@,
                    )
                },
            },
    {
        if window == 0 {
            return Err(invalid("pipeline window must be non-zero"));
        }
        Ok(PipelineTracker { configured_window: window, current: 0, maximum: 0 })
    }

    /// Whether one more send fits.
    pub fn can_post(&self) -> (can: bool)
        ensures
            can == (self@.current < self@.window),
    {
        self.current < self.configured_window
    }

    /// Counts a posted send.
    pub fn posted(&mut self) -> (counted: Result<()>)
        requires
            old(self)@.wf(),
        ensures
            final(self)@.wf(),
            match counted {
                Ok(()) => {
                    &&& old(self)@.current < old(self)@.window
                    &&& final(self)@ == (PipelineView {
                        current: old(self)@.current + 1,
                        maximum: if old(self)@.current + 1 > old(self)@.maximum {
                            old(self)@.current + 1
                        } else {
                            old(self)@.maximum
                        },
                        ..old(self)@
                    })
                },
                Err(error) => {
                    &&& old(self)@.current == old(self)@.window
                    &&& error@ == ErrorView::InvalidConfiguration(
                        "outstanding SEND would exceed configured window"@,
                    )
                    &&& final(self)@ == old(self)@
                },
            },
    {
        if !self.can_post() {
            return Err(invalid("outstanding SEND would exceed configured window"));
        }
        self.current = self.current + 1;
        if self.current > self.maximum {
            self.maximum = self.current;
        }
        Ok(())
    }

    /// Counts a completed send.
    pub fn completed(&mut self) -> (counted: Result<()>)
        requires
            old(self)@.wf(),
        ensures
            final(self)@.wf(),
            match counted {
                Ok(()) => {
                    &&& old(self)@.current > 0
                    &&& final(self)@ == (PipelineView {
                        current: (old(self)@.current - 1) as nat,
                        ..old(self)@
                    })
                },
                Err(error) => {
                    &&& old(self)@.current == 0
                    &&& error@ == ErrorView::Protocol("send completion without outstanding SEND"@)
                    &&& final(self)@ == old(self)@
                },
            },
    {
        if self.current == 0 {
            return Err(protocol("send completion without outstanding SEND"));
        }
        self.current = self.current - 1;
        Ok(())
    }

    pub fn current(&self) -> (current: usize)
        ensures
            current == self@.current,
    {
        self.current
    }

    pub fn configured_window(&self) -> (window: usize)
        ensures
            window == self@.window,
    {
        self.configured_window
    }

    pub fn maximum(&self) -> (maximum: usize)
        ensures
            maximum == self@.maximum,
    {
        self.maximum
    }
}

/// Sender-side accounting for receive work requests that the peer has explicitly confirmed as
/// posted. Local SEND completion never replenishes this credit: it only proves that the local TX
/// buffer may be reclaimed.
#[derive(Clone, Copy, Debug, Eq, PartialEq, Structural)]
pub struct RemoteReceiveCredit {
    initial: usize,
    available: usize,
    returned: usize,
    consumed: usize,
    updates: usize,
    waits: usize,
    wait_ns: u64,
    max_wait_ns: u64,
}

/// What a sender knows of the peer's receives.
pub struct RemoteCreditView {
    pub initial: nat,
    /// The receives that are posted and not used.
    pub available: nat,
    /// The receives that were posted again.
    pub returned: nat,
    /// The receives that were used.
    pub consumed: nat,
    pub updates: nat,
    pub waits: nat,
    /// How long all waits took.
    pub wait_ns: u64,
    /// How long the longest wait took.
    pub max_wait_ns: u64,
}

impl View for RemoteReceiveCredit {
    type V = RemoteCreditView;

    closed spec fn view(&self) -> RemoteCreditView {
        RemoteCreditView {
            initial: self.initial as nat,
            available: self.available as nat,
            returned: self.returned as nat,
            consumed: self.consumed as nat,
            updates: self.updates as nat,
            waits: self.waits as nat,
            wait_ns: self.wait_ns,
            max_wait_ns: self.max_wait_ns,
        }
    }
}

impl RemoteCreditView {
    /// Credit is conserved, and never more than the peer's receive queue holds.
    pub open spec fn wf(self) -> bool {
        &&& self.available + self.consumed == self.initial + self.returned
        &&& self.available <= self.initial
        &&& self.consumed <= usize::MAX && self.updates <= usize::MAX && self.waits <= usize::MAX
    }

    /// Why more credit is refused, if it is refused.
    pub open spec fn grant_error(self, count: nat) -> Option<ErrorView> {
        if count == 0 {
            Some(ErrorView::Protocol("zero remote receive credit update"@))
        } else if self.available + count > usize::MAX {
            Some(ErrorView::Protocol("remote receive credit overflow"@))
        } else if self.available + count > self.initial {
            Some(
                ErrorView::Protocol(
                    "remote receive credit "@ + text::decimal(self.available + count)
                        + " exceeds posted RQ capacity "@ + text::decimal(self.initial) + ""@,
                ),
            )
        } else {
            None
        }
    }
}

impl RemoteReceiveCredit {
    /// The credit of a peer with `initial` posted receives.
    pub fn new(initial: usize) -> (credit: Result<Self>)
        ensures
            match credit {
                Ok(credit) => {
                    &&& initial > 0
                    &&& credit@.wf()
                    &&& credit@ == (RemoteCreditView {
                        initial: initial as nat,
                        available: initial as nat,
                        returned: 0,
                        consumed: 0,
                        updates: 0,
                        waits: 0,
                        wait_ns: 0,
                        max_wait_ns: 0,
                    })
                },
                Err(error) => {
                    &&& initial == 0
                    &&& error@ == ErrorView::InvalidConfiguration(
                        "initial remote receive credit must be non-zero"@,
                    )
                },
            },
    {
        if initial == 0 {
            return Err(invalid("initial remote receive credit must be non-zero"));
        }
        Ok(
            RemoteReceiveCredit {
                initial,
                available: initial,
                returned: 0,
                consumed: 0,
                updates: 0,
                waits: 0,
                wait_ns: 0,
                max_wait_ns: 0,
            },
        )
    }

    /// Whether the peer has a receive for one more message.
    pub fn can_send(&self) -> (can: bool)
        ensures
            can == (self@.available > 0),
    {
        self.available != 0
    }

    /// Uses one receive of the peer. Where the count of uses is full, the receive is used up all the
    /// same.
    pub fn consume(&mut self) -> (consumed: Result<()>)
        requires
            old(self)@.wf(),
        ensures
            match consumed {
                Ok(()) => {
                    &&& old(self)@.available > 0
                    &&& old(self)@.consumed < usize::MAX
                    &&& final(self)@.wf()
                    &&& final(self)@ == (RemoteCreditView {
                        available: (old(self)@.available - 1) as nat,
                        consumed: old(self)@.consumed + 1,
                        ..old(self)@
                    })
                },
                Err(error) => if old(self)@.available == 0 {
                    &&& error@ == ErrorView::Protocol("SEND without remote receive credit"@)
                    &&& final(self)@ == old(self)@
                } else {
                    &&& old(self)@.consumed == usize::MAX
                    &&& error@ == ErrorView::Protocol(
                        "remote receive credit consumption overflow"@,
                    )
                    &&& final(self)@ == (RemoteCreditView {
                        available: (old(self)@.available - 1) as nat,
                        ..old(self)@
                    })
                },
            },
    {
        if self.available == 0 {
            return Err(protocol("SEND without remote receive credit"));
        }
        self.available = self.available - 1;
        match self.consumed.checked_add(1) {
            Some(consumed) => {
                self.consumed = consumed;
                Ok(())
            },
            None => Err(protocol("remote receive credit consumption overflow")),
        }
    }

    /// Takes in that the peer posted `count` receives again.
    pub fn grant(&mut self, count: usize) -> (granted: Result<()>)
        requires
            old(self)@.wf(),
        ensures
            final(self)@.wf(),
            ({
                let refused = old(self)@.grant_error(count as nat);
                let credited = RemoteCreditView {
                    available: old(self)@.available + count as nat,
                    returned: old(self)@.returned + count as nat,
                    ..old(self)@
                };
                match granted {
                    Ok(()) => {
                        &&& refused is None
                        &&& final(self)@ == (RemoteCreditView {
                            updates: old(self)@.updates + 1,
                            ..credited
                        })
                    },
                    Err(error) => if refused is Some {
                        refused == Some(error@) && final(self)@ == old(self)@
                    } else {
                        &&& old(self)@.updates == usize::MAX
                        &&& error@ == ErrorView::Protocol("remote receive credit update overflow"@)
                        &&& final(self)@ == credited
                    },
                }
            }),
    {
        if count == 0 {
            return Err(protocol("zero remote receive credit update"));
        }
        let available: usize = match self.available.checked_add(count) {
            Some(available) => available,
            None => {
                return Err(protocol("remote receive credit overflow"));
            },
        };
        if available > self.initial {
            return Err(
                Error::Protocol(
                    with_numbers(
                        "remote receive credit ",
                        available as u64,
                        " exceeds posted RQ capacity ",
                        self.initial as u64,
                        "",
                    ),
                ),
            );
        }
        self.available = available;
        match self.returned.checked_add(count) {
            Some(returned) => {
                self.returned = returned;
            },
            None => {
                assert(false);
                return Err(protocol("returned remote receive credit overflow"));
            },
        }
        match self.updates.checked_add(1) {
            Some(updates) => {
                self.updates = updates;
                Ok(())
            },
            None => Err(protocol("remote receive credit update overflow")),
        }
    }

    /// Counts a wait for credit.
    pub fn waited(&mut self) -> (counted: Result<()>)
        requires
            old(self)@.wf(),
        ensures
            final(self)@.wf(),
            match counted {
                Ok(()) => {
                    &&& old(self)@.waits < usize::MAX
                    &&& final(self)@ == (RemoteCreditView {
                        waits: old(self)@.waits + 1,
                        ..old(self)@
                    })
                },
                Err(error) => {
                    &&& old(self)@.waits == usize::MAX
                    &&& error@ == ErrorView::Protocol("remote receive credit wait overflow"@)
                    &&& final(self)@ == old(self)@
                },
            },
    {
        match self.waits.checked_add(1) {
            Some(waits) => {
                self.waits = waits;
                Ok(())
            },
            None => Err(protocol("remote receive credit wait overflow")),
        }
    }

    /// Counts how long a wait for credit took.
    pub fn record_wait_duration(&mut self, elapsed_ns: u128)
        requires
            old(self)@.wf(),
        ensures
            final(self)@.wf(),
            ({
                let ns = completion::saturated(elapsed_ns as int);
                final(self)@ == (RemoteCreditView {
                    wait_ns: completion::saturated(old(self)@.wait_ns + ns),
                    max_wait_ns: completion::larger(old(self)@.max_wait_ns, ns),
                    ..old(self)@
                })
            }),
    {
        let ns: u64 = duration_ns_saturating(elapsed_ns);
        self.wait_ns = self.wait_ns.saturating_add(ns);
        self.max_wait_ns = max_u64(self.max_wait_ns, ns);
    }

    pub fn wait_ns(&self) -> (ns: u64)
        ensures
            ns == self@.wait_ns,
    {
        self.wait_ns
    }

    pub fn max_wait_ns(&self) -> (ns: u64)
        ensures
            ns == self@.max_wait_ns,
    {
        self.max_wait_ns
    }

    pub fn initial(&self) -> (initial: usize)
        ensures
            initial == self@.initial,
    {
        self.initial
    }

    pub fn available(&self) -> (available: usize)
        ensures
            available == self@.available,
    {
        self.available
    }

    pub fn returned(&self) -> (returned: usize)
        ensures
            returned == self@.returned,
    {
        self.returned
    }

    pub fn consumed(&self) -> (consumed: usize)
        ensures
            consumed == self@.consumed,
    {
        self.consumed
    }

    pub fn updates(&self) -> (updates: usize)
        ensures
            updates == self@.updates,
    {
        self.updates
    }

    pub fn waits(&self) -> (waits: usize)
        ensures
            waits == self@.waits,
    {
        self.waits
    }
}

/// Receiver-side batching for credits that became safe only after the RX work requests were
/// successfully reposted.
#[derive(Clone, Copy, Debug, Eq, PartialEq, Structural)]
pub struct RemoteCreditReturn {
    threshold: usize,
    pending: usize,
    returned: usize,
    updates: usize,
}

/// What a receiver has still to return.
pub struct CreditReturnView {
    /// Credit is returned in multiples of this.
    pub threshold: nat,
    /// Credit that was not returned yet.
    pub pending: nat,
    pub returned: nat,
    pub updates: nat,
}

impl View for RemoteCreditReturn {
    type V = CreditReturnView;

    closed spec fn view(&self) -> CreditReturnView {
        CreditReturnView {
            threshold: self.threshold as nat,
            pending: self.pending as nat,
            returned: self.returned as nat,
            updates: self.updates as nat,
        }
    }
}

impl CreditReturnView {
    /// Less than one batch is ever held back.
    pub open spec fn wf(self) -> bool {
        &&& 0 < self.threshold
        &&& self.pending < self.threshold
        &&& self.returned <= usize::MAX && self.updates <= usize::MAX
    }

    /// The credit that is returned once `count` more receives were reposted.
    pub open spec fn due(self, count: nat) -> nat {
        (self.pending + count) / self.threshold * self.threshold
    }

    /// Whether this is the account after some receives were reposted and some credit was returned.
    pub open spec fn accounts(self, before: Self, reposted: nat, given: nat) -> bool {
        &&& self.threshold == before.threshold
        &&& self.pending + given == before.pending + reposted
        &&& self.returned == before.returned + given
    }
}

impl RemoteCreditReturn {
    /// The batching for `posted_credit` posted receives: a quarter of them at a time.
    pub fn new(posted_credit: usize) -> (made: Result<Self>)
        ensures
            match made {
                Ok(made) => {
                    &&& posted_credit > 0
                    &&& made@.wf()
                    &&& made@ == (CreditReturnView {
                        threshold: if posted_credit < 4 {
                            1
                        } else {
                            (posted_credit / 4) as nat
                        },
                        pending: 0,
                        returned: 0,
                        updates: 0,
                    })
                },
                Err(error) => {
                    &&& posted_credit == 0
                    &&& error@ == ErrorView::InvalidConfiguration(
                        "posted receive credit must be non-zero"@,
                    )
                },
            },
    {
        if posted_credit == 0 {
            return Err(invalid("posted receive credit must be non-zero"));
        }
        let threshold: usize = if posted_credit < 4 {
            1
        } else {
            posted_credit / 4
        };
        Ok(RemoteCreditReturn { threshold, pending: 0, returned: 0, updates: 0 })
    }

    fn give(&mut self, count: usize) -> (given: Result<Option<usize>>)
        requires
            old(self)@.wf(),
        ensures
            final(self)@.threshold == old(self)@.threshold,
            final(self)@.pending == old(self)@.pending,
            match given {
                Ok(given) => {
                    &&& given == Some(count)
                    &&& final(self)@.returned == old(self)@.returned + count
                    &&& final(self)@.updates == old(self)@.updates + 1
                    &&& final(self)@.wf()
                },
                Err(error) => if old(self)@.returned + count > usize::MAX {
                    &&& error@ == ErrorView::Protocol("returned receive credit overflow"@)
                    &&& final(self)@ == old(self)@
                } else {
                    &&& old(self)@.updates == usize::MAX
                    &&& error@ == ErrorView::Protocol("receive credit update overflow"@)
                    &&& final(self)@ == (CreditReturnView {
                        returned: old(self)@.returned + count as nat,
                        ..old(self)@
                    })
                },
            },
    {
        match self.returned.checked_add(count) {
            Some(returned) => {
                self.returned = returned;
            },
            None => {
                return Err(protocol("returned receive credit overflow"));
            },
        }
        match self.updates.checked_add(1) {
            Some(updates) => {
                self.updates = updates;
                Ok(Some(count))
            },
            None => Err(protocol("receive credit update overflow")),
        }
    }

    /// Takes in that `count` receives were reposted; gives the credit to return now, in whole
    /// batches.
    pub fn reposted(&mut self, count: usize) -> (due: Result<Option<usize>>)
        requires
            old(self)@.wf(),
        ensures
            final(self)@.wf(),
            due matches Ok(given) ==> final(self)@.accounts(
                old(self)@,
                count as nat,
                match given {
                    Some(given) => given as nat,
                    None => 0,
                },
            ),
            ({
                let total = old(self)@.pending + count;
                let batch = old(self)@.due(count as nat);
                let kept = CreditReturnView { pending: (total - batch) as nat, ..old(self)@ };
                match due {
                    Ok(None) => {
                        &&& total < old(self)@.threshold
                        &&& batch == 0
                        &&& final(self)@ == kept
                    },
                    Ok(Some(given)) => {
                        &&& total >= old(self)@.threshold
                        &&& given == batch
                        &&& final(self)@ == (CreditReturnView {
                            returned: old(self)@.returned + batch,
                            updates: old(self)@.updates + 1,
                            ..kept
                        })
                    },
                    Err(error) => if total > usize::MAX {
                        &&& error@ == ErrorView::Protocol("pending remote credit overflow"@)
                        &&& final(self)@ == old(self)@
                    } else if old(self)@.returned + batch > usize::MAX {
                        &&& error@ == ErrorView::Protocol("returned receive credit overflow"@)
                        &&& final(self)@ == kept
                    } else {
                        &&& batch > 0
                        &&& old(self)@.updates == usize::MAX
                        &&& error@ == ErrorView::Protocol("receive credit update overflow"@)
                        &&& final(self)@ == (CreditReturnView {
                            returned: old(self)@.returned + batch,
                            ..kept
                        })
                    },
                }
            }),
    {
        let ghost before = self@;
        let total: usize = match self.pending.checked_add(count) {
            Some(total) => total,
            None => {
                return Err(protocol("pending remote credit overflow"));
            },
        };
        proof {
            let batches = (total / self.threshold) as int;
            let threshold = self.threshold as int;
            let sum = total as int;
            vstd::arithmetic::div_mod::lemma_fundamental_div_mod(sum, threshold);
            assert(batches * threshold <= sum && sum - batches * threshold < threshold && batches
                * threshold >= 0) by (nonlinear_arith)
                requires
                    threshold > 0,
                    batches >= 0,
                    sum == threshold * batches + sum % threshold,
                    0 <= sum % threshold < threshold,
            ;
            if total < threshold {
                vstd::arithmetic::div_mod::lemma_basic_div(sum, threshold);
                assert(batches * threshold == 0) by (nonlinear_arith)
                    requires
                        batches == 0,
                ;
            }
        }
        if total < self.threshold {
            self.pending = total;
            return Ok(None);
        }
        let batch: usize = total / self.threshold * self.threshold;
        self.pending = total - batch;
        self.give(batch)
    }

    /// Returns a final partial batch when the sender has posted every data message but still needs
    /// one receive credit for the end.
    pub fn flush(&mut self) -> (due: Result<Option<usize>>)
        requires
            old(self)@.wf(),
        ensures
            final(self)@.wf(),
            due matches Ok(given) ==> final(self)@.pending == 0 && final(self)@.accounts(
                old(self)@,
                0,
                match given {
                    Some(given) => given as nat,
                    None => 0,
                },
            ),
            ({
                let batch = old(self)@.pending;
                let kept = CreditReturnView { pending: 0, ..old(self)@ };
                match due {
                    Ok(None) => batch == 0 && final(self)@ == old(self)@,
                    Ok(Some(given)) => {
                        &&& batch > 0
                        &&& given == batch
                        &&& final(self)@ == (CreditReturnView {
                            returned: old(self)@.returned + batch,
                            updates: old(self)@.updates + 1,
                            ..kept
                        })
                    },
                    Err(error) => if old(self)@.returned + batch > usize::MAX {
                        &&& error@ == ErrorView::Protocol("returned receive credit overflow"@)
                        &&& final(self)@ == kept
                    } else {
                        &&& batch > 0
                        &&& old(self)@.updates == usize::MAX
                        &&& error@ == ErrorView::Protocol("receive credit update overflow"@)
                        &&& final(self)@ == (CreditReturnView {
                            returned: old(self)@.returned + batch,
                            ..kept
                        })
                    },
                }
            }),
    {
        if self.pending == 0 {
            return Ok(None);
        }
        let batch: usize = self.pending;
        self.pending = 0;
        self.give(batch)
    }

    pub fn threshold(&self) -> (threshold: usize)
        ensures
            threshold == self@.threshold,
    {
        self.threshold
    }

    pub fn pending(&self) -> (pending: usize)
        ensures
            pending == self@.pending,
    {
        self.pending
    }

    pub fn returned(&self) -> (returned: usize)
        ensures
            returned == self@.returned,
    {
        self.returned
    }

    pub fn updates(&self) -> (updates: usize)
        ensures
            updates == self@.updates,
    {
        self.updates
    }
}

/// Whether as many receives are kept posted as there are slots for and messages to come.
pub open spec fn keeps_posted(target: nat, rx_slot_count: nat, remaining_messages: nat) -> bool {
    &&& target <= rx_slot_count
    &&& target <= remaining_messages
    &&& target == rx_slot_count || target == remaining_messages
}

/// How many receives to keep posted: as many as there are slots for and messages to come. The
/// receive queue is kept deep and independent of the sender's window: a completion poll may consume
/// a whole batch before anything is reposted.
pub fn receive_credit_target(_window: usize, rx_slot_count: usize, remaining_messages: usize) -> (target:
    Result<usize>)
    ensures
        target matches Ok(target) ==> keeps_posted(
            target as nat,
            rx_slot_count as nat,
            remaining_messages as nat,
        ),
        ({
            let smaller = if rx_slot_count <= remaining_messages {
                rx_slot_count
            } else {
                remaining_messages
            };
            match target {
                Ok(target) => target == smaller && smaller > 0,
                Err(error) => {
                    &&& smaller == 0
                    &&& error@ == ErrorView::InvalidConfiguration(
                        "receive credit target must be non-zero"@,
                    )
                },
            }
        }),
{
    let target: usize = if rx_slot_count <= remaining_messages {
        rx_slot_count
    } else {
        remaining_messages
    };
    if target == 0 {
        return Err(invalid("receive credit target must be non-zero"));
    }
    Ok(target)
}

/// Keeps a number of receives posted as long as that many messages are to come.
#[derive(Clone, Copy, Debug, Eq, PartialEq, Structural)]
pub struct ReceiveCreditController {
    configured: usize,
    remaining_messages: usize,
    current_credit: usize,
    next_post_sequence: u64,
}

/// What a receiver has posted.
pub struct CreditView {
    pub configured: nat,
    /// The messages to come.
    pub remaining: nat,
    /// The posted receives.
    pub current: nat,
    /// The receives posted so far.
    pub posts: nat,
}

impl View for ReceiveCreditController {
    type V = CreditView;

    closed spec fn view(&self) -> CreditView {
        CreditView {
            configured: self.configured as nat,
            remaining: self.remaining_messages as nat,
            current: self.current_credit as nat,
            posts: self.next_post_sequence as nat,
        }
    }
}

impl CreditView {
    /// No more receives are posted than are configured or needed.
    pub open spec fn wf(self) -> bool {
        &&& 0 < self.configured
        &&& self.current <= self.configured
        &&& self.current <= self.remaining
        &&& self.posts <= u64::MAX
    }

    /// How many receives are to be posted.
    pub open spec fn needed(self) -> nat {
        let wanted = if self.configured <= self.remaining {
            self.configured
        } else {
            self.remaining
        };
        if self.current <= wanted {
            (wanted - self.current) as nat
        } else {
            0
        }
    }
}

impl ReceiveCreditController {
    /// Nothing posted, and this many messages to come.
    pub fn new(configured: usize, remaining_messages: usize) -> (controller: Result<Self>)
        ensures
            match controller {
                Ok(controller) => {
                    &&& configured > 0
                    &&& controller@.wf()
                    &&& controller@ == (CreditView {
                        configured: configured as nat,
                        remaining: remaining_messages as nat,
                        current: 0,
                        posts: 0,
                    })
                },
                Err(error) => {
                    &&& configured == 0
                    &&& error@ == ErrorView::InvalidConfiguration(
                        "receive credit must be non-zero"@,
                    )
                },
            },
    {
        if configured == 0 {
            return Err(invalid("receive credit must be non-zero"));
        }
        Ok(
            ReceiveCreditController {
                configured,
                remaining_messages,
                current_credit: 0,
                next_post_sequence: 0,
            },
        )
    }

    /// How many receives are to be posted.
    pub fn posts_needed(&self) -> (needed: usize)
        ensures
            needed == self@.needed(),
    {
        let wanted: usize = if self.configured <= self.remaining_messages {
            self.configured
        } else {
            self.remaining_messages
        };
        wanted.saturating_sub(self.current_credit)
    }

    /// Counts a posted receive.
    pub fn posted(&mut self) -> (counted: Result<()>)
        requires
            old(self)@.wf(),
        ensures
            final(self)@.wf(),
            match counted {
                Ok(()) => {
                    &&& old(self)@.needed() > 0
                    &&& old(self)@.posts < u64::MAX
                    &&& final(self)@ == (CreditView {
                        current: old(self)@.current + 1,
                        posts: old(self)@.posts + 1,
                        ..old(self)@
                    })
                },
                Err(error) => {
                    &&& final(self)@ == old(self)@
                    &&& if old(self)@.needed() == 0 {
                        error@ == ErrorView::InvalidConfiguration(
                            "receive post would exceed required credit"@,
                        )
                    } else {
                        &&& old(self)@.posts == u64::MAX
                        &&& error@ == ErrorView::Protocol("receive post sequence overflow"@)
                    }
                },
            },
    {
        if self.posts_needed() == 0 {
            return Err(invalid("receive post would exceed required credit"));
        }
        match self.next_post_sequence.checked_add(1) {
            Some(next) => {
                self.current_credit = self.current_credit + 1;
                self.next_post_sequence = next;
                Ok(())
            },
            None => Err(protocol("receive post sequence overflow")),
        }
    }

    /// Counts a completed receive.
    pub fn completed(&mut self) -> (counted: Result<()>)
        requires
            old(self)@.wf(),
        ensures
            final(self)@.wf(),
            match counted {
                Ok(()) => {
                    &&& old(self)@.current > 0
                    &&& final(self)@ == (CreditView {
                        current: (old(self)@.current - 1) as nat,
                        remaining: (old(self)@.remaining - 1) as nat,
                        ..old(self)@
                    })
                },
                Err(error) => {
                    &&& old(self)@.current == 0
                    &&& error@ == ErrorView::Protocol("receive completion without posted credit"@)
                    &&& final(self)@ == old(self)@
                },
            },
    {
        if self.current_credit == 0 {
            return Err(protocol("receive completion without posted credit"));
        }
        self.current_credit = self.current_credit - 1;
        self.remaining_messages = self.remaining_messages - 1;
        Ok(())
    }

    pub fn current_credit(&self) -> (current: usize)
        ensures
            current == self@.current,
    {
        self.current_credit
    }

    pub fn configured_credit(&self) -> (configured: usize)
        ensures
            configured == self@.configured,
    {
        self.configured
    }

    pub fn remaining_messages(&self) -> (remaining: usize)
        ensures
            remaining == self@.remaining,
    {
        self.remaining_messages
    }

    pub fn next_post_sequence(&self) -> (sequence: u64)
        ensures
            sequence == self@.posts,
    {
        self.next_post_sequence
    }
}

/// A sender never uses a receive that the peer has not posted: what it used is at most what was
/// posted at first and again later.
pub proof fn sends_never_outrun_receives(credit: RemoteCreditView)
    requires
        credit.wf(),
    ensures
        credit.consumed <= credit.initial + credit.returned,
        credit.returned <= credit.consumed,
{
}

/// Credit that is returned in batches is never lost: what is returned and what is held back add up
/// to what was held back before and what was reposted, and less than one batch is held back.
pub proof fn batched_credit_is_conserved(before: CreditReturnView, count: nat)
    requires
        before.wf(),
    ensures
        before.due(count) <= before.pending + count,
        before.pending + count - before.due(count) < before.threshold,
        before.due(count) % before.threshold == 0,
{
    let total = (before.pending + count) as int;
    let threshold = before.threshold as int;
    vstd::arithmetic::div_mod::lemma_fundamental_div_mod(total, threshold);
    let batches = total / threshold;
    vstd::arithmetic::div_mod::lemma_mod_multiples_basic(batches, threshold);
    assert(batches * threshold <= total && total - batches * threshold < threshold)
        by (nonlinear_arith)
        requires
            threshold > 0,
            total == threshold * batches + total % threshold,
            0 <= total % threshold < threshold,
    ;
}

/// Once every message has come, no receive is posted and none is needed.
pub proof fn receives_end_with_the_messages(credit: CreditView)
    requires
        credit.wf(),
        credit.remaining == 0,
    ensures
        credit.current == 0,
        credit.needed() == 0,
{
}

} // verus!
