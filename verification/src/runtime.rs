//! The process-level owner of the native resource tree: configuration checks,
//! start-up with rollback, and shutdown.

use vstd::prelude::*;

use crate::buffer::{BufferPoolConfig, PoolView, SlotId, SlotKind, SlotState, UrmaBufferPool};
use crate::connection::UrmaConnection;
use crate::error::{invalid, Error, ErrorView, Result};
use crate::jetty;
use crate::jetty::{note_failure, JettyConfig, UrmaJetty};
use crate::provider::{map_ffi_error, FfiError};
use crate::text;
use crate::text::{with_numbers, Text};

pub mod laws;

verus! {

/// Which device to use, and how much of it.
#[derive(Clone, Debug, Eq, PartialEq)]
pub struct RuntimeConfig {
    pub device_name: String,
    pub eid_index: u32,
    pub send_jfc_depth: u32,
    pub recv_jfc_depth: u32,
    pub buffer_pool: BufferPoolConfig,
}

/// The default pool layout.
pub open spec fn default_pool() -> BufferPoolConfig {
    BufferPoolConfig {
        slot_size: 65536,
        tx_slot_count: 128,
        rx_slot_count: 512,
        alignment: 4096,
        alias_tx_slots: false,
    }
}

impl RuntimeConfig {
    /// The device at its default sizes.
    pub fn new<T: Text>(device_name: T, eid_index: u32) -> (config: Self)
        ensures
            config.device_name@ == device_name.text(),
            config.eid_index == eid_index,
            config.send_jfc_depth == 4096,
            config.recv_jfc_depth == 4096,
            config.buffer_pool == default_pool(),
    {
        RuntimeConfig {
            device_name: device_name.into_string(),
            eid_index,
            send_jfc_depth: 4096,
            recv_jfc_depth: 4096,
            buffer_pool: BufferPoolConfig::default(),
        }
    }
}

/// Layout fingerprint reported by the compiler that built the native shim. This
/// is diagnostic data, not a promise that private layouts are stable.
#[derive(Clone, Copy, Debug, Eq, PartialEq, Structural)]
pub struct AbiBaseline {
    pub shim_abi_version: u32,
    pub pointer_size: u32,
    pub status_size: u32,
    pub init_attr_size: u32,
    pub eid_size: u32,
    pub device_size: u32,
    pub context_size: u32,
    pub success_value: i32,
}

/// One endpoint identifier of a device.
#[derive(Clone, Debug, Eq, PartialEq)]
pub struct DeviceEid {
    pub index: u32,
    pub bytes: Vec<u8>,
}

/// A snapshot of what a device offers.
#[derive(Clone, Debug, Eq, PartialEq)]
pub struct UrmaDeviceCapability {
    pub device_name: String,
    pub transport_type: i32,
    pub selected_eid_index: u32,
    pub eids: Vec<DeviceEid>,
    pub max_jfc: u32,
    pub max_jfs: u32,
    pub max_jfr: u32,
    pub max_jetty: u32,
    pub max_jfc_depth: u32,
    pub max_jfs_depth: u32,
    pub max_jfr_depth: u32,
    pub max_jfs_inline_len: u32,
    pub max_jfs_sge: u32,
    pub max_jfs_rsge: u32,
    pub max_jfr_sge: u32,
    pub max_msg_size: u64,
    pub transport_modes: u16,
    pub page_size_cap: u64,
}

/// The part of a device's capability that a connection negotiates over.
#[derive(Clone, Copy, Debug, Eq, PartialEq, Structural)]
pub struct CapabilityWire {
    pub transport_type: i32,
    pub eid_index: u32,
    pub max_jfc_depth: u32,
    pub max_jfs_depth: u32,
    pub max_jfr_depth: u32,
    pub max_jfs_sge: u32,
    pub max_jfr_sge: u32,
    pub max_msg_size: u64,
    pub transport_modes: u16,
}

impl UrmaDeviceCapability {
    /// The part that a connection negotiates over.
    pub open spec fn negotiated(self) -> CapabilityWire {
        CapabilityWire {
            transport_type: self.transport_type,
            eid_index: self.selected_eid_index,
            max_jfc_depth: self.max_jfc_depth,
            max_jfs_depth: self.max_jfs_depth,
            max_jfr_depth: self.max_jfr_depth,
            max_jfs_sge: self.max_jfs_sge,
            max_jfr_sge: self.max_jfr_sge,
            max_msg_size: self.max_msg_size,
            transport_modes: self.transport_modes,
        }
    }
}

impl CapabilityWire {
    /// The part of a device's capability that a connection negotiates over.
    pub fn from_capability(capability: &UrmaDeviceCapability) -> (wire: Self)
        ensures
            wire == capability.negotiated(),
    {
        CapabilityWire {
            transport_type: capability.transport_type,
            eid_index: capability.selected_eid_index,
            max_jfc_depth: capability.max_jfc_depth,
            max_jfs_depth: capability.max_jfs_depth,
            max_jfr_depth: capability.max_jfr_depth,
            max_jfs_sge: capability.max_jfs_sge,
            max_jfr_sge: capability.max_jfr_sge,
            max_msg_size: capability.max_msg_size,
            transport_modes: capability.transport_modes,
        }
    }
}

/// The layout fingerprint of the native shim, which this build does not hold.
pub fn abi_baseline() -> (baseline: Result<AbiBaseline>)
    ensures
        baseline matches Err(error) && error@ == ErrorView::FeatureDisabled,
{
    Err(Error::FeatureDisabled)
}

/// The error for a value outside `1..=maximum`, if it is outside.
pub open spec fn range_error(prefix: Seq<char>, value: u32, maximum: u32) -> Option<ErrorView> {
    if value == 0 || value > maximum {
        Some(
            ErrorView::InvalidConfiguration(
                prefix + text::decimal(value as nat) + " is outside 1..="@ + text::decimal(
                    maximum as nat,
                ) + ""@,
            ),
        )
    } else {
        None
    }
}

fn check_range(prefix: &str, value: u32, maximum: u32) -> (checked: Result<()>)
    ensures
        match checked {
            Ok(()) => range_error(prefix@, value, maximum) is None,
            Err(error) => range_error(prefix@, value, maximum) == Some(error@),
        },
{
    if value == 0 || value > maximum {
        return Err(
            Error::InvalidConfiguration(
                with_numbers(prefix, value as u64, " is outside 1..=", maximum as u64, ""),
            ),
        );
    }
    Ok(())
}

/// The error that a configuration is refused with on a device, if it is refused.
pub open spec fn config_error(config: RuntimeConfig, capability: UrmaDeviceCapability) -> Option<
    ErrorView,
> {
    if config.buffer_pool.layout_error() is Some {
        config.buffer_pool.layout_error()
    } else if capability.max_jfc < 2 {
        Some(
            ErrorView::InvalidConfiguration(
                "device reports fewer than two available JFC resources"@,
            ),
        )
    } else if range_error("send_jfc_depth="@, config.send_jfc_depth, capability.max_jfc_depth) is Some {
        range_error("send_jfc_depth="@, config.send_jfc_depth, capability.max_jfc_depth)
    } else if range_error("recv_jfc_depth="@, config.recv_jfc_depth, capability.max_jfc_depth) is Some {
        range_error("recv_jfc_depth="@, config.recv_jfc_depth, capability.max_jfc_depth)
    } else if config.buffer_pool.slot_size > capability.max_msg_size {
        Some(
            ErrorView::InvalidConfiguration(
                "slot_size="@ + text::decimal(config.buffer_pool.slot_size as nat)
                    + " exceeds max_msg_size="@ + text::decimal(capability.max_msg_size as nat)
                    + ""@,
            ),
        )
    } else {
        None
    }
}

/// Whether a device can serve a configuration.
pub fn validate_config(config: &RuntimeConfig, capability: &UrmaDeviceCapability) -> (valid: Result<
    (),
>)
    ensures
        match valid {
            Ok(()) => config_error(*config, *capability) is None,
            Err(error) => config_error(*config, *capability) == Some(error@),
        },
{
    match config.buffer_pool.total_len() {
        Ok(_) => {},
        Err(error) => {
            return Err(error);
        },
    }
    if capability.max_jfc < 2 {
        return Err(invalid("device reports fewer than two available JFC resources"));
    }
    match check_range("send_jfc_depth=", config.send_jfc_depth, capability.max_jfc_depth) {
        Ok(()) => {},
        Err(error) => {
            return Err(error);
        },
    }
    match check_range("recv_jfc_depth=", config.recv_jfc_depth, capability.max_jfc_depth) {
        Ok(()) => {},
        Err(error) => {
            return Err(error);
        },
    }
    let slot_size: u64 = config.buffer_pool.slot_size as u64;
    if slot_size > capability.max_msg_size {
        return Err(
            Error::InvalidConfiguration(
                with_numbers(
                    "slot_size=",
                    slot_size,
                    " exceeds max_msg_size=",
                    capability.max_msg_size,
                    "",
                ),
            ),
        );
    }
    Ok(())
}

/// The error that a Jetty's sizes are refused with on a device, if they are refused.
pub open spec fn jetty_config_error(config: JettyConfig, capability: UrmaDeviceCapability) -> Option<
    ErrorView,
> {
    let send_depth = range_error("Jetty send_depth="@, config.send_depth, capability.max_jfs_depth);
    let recv_depth = range_error("Jetty recv_depth="@, config.recv_depth, capability.max_jfr_depth);
    let send_sge = range_error("Jetty max_send_sge="@, config.max_send_sge, capability.max_jfs_sge);
    let recv_sge = range_error("Jetty max_recv_sge="@, config.max_recv_sge, capability.max_jfr_sge);
    if capability.max_jetty == 0 || capability.max_jfs == 0 || capability.max_jfr == 0 {
        Some(
            ErrorView::InvalidConfiguration(
                "device does not advertise the resources required by a duplex Jetty"@,
            ),
        )
    } else if send_depth is Some {
        send_depth
    } else if recv_depth is Some {
        recv_depth
    } else if send_sge is Some {
        send_sge
    } else if recv_sge is Some {
        recv_sge
    } else if capability.max_jfs_rsge == 0 {
        Some(
            ErrorView::InvalidConfiguration(
                "device does not advertise an RC remote-SGE capability"@,
            ),
        )
    } else {
        None
    }
}

/// Whether a device can serve a Jetty of these sizes.
pub fn validate_jetty_config(config: &JettyConfig, capability: &UrmaDeviceCapability) -> (valid:
    Result<()>)
    ensures
        match valid {
            Ok(()) => jetty_config_error(*config, *capability) is None,
            Err(error) => jetty_config_error(*config, *capability) == Some(error@),
        },
{
    if capability.max_jetty == 0 || capability.max_jfs == 0 || capability.max_jfr == 0 {
        return Err(invalid("device does not advertise the resources required by a duplex Jetty"));
    }
    match check_range("Jetty send_depth=", config.send_depth, capability.max_jfs_depth) {
        Ok(()) => {},
        Err(error) => {
            return Err(error);
        },
    }
    match check_range("Jetty recv_depth=", config.recv_depth, capability.max_jfr_depth) {
        Ok(()) => {},
        Err(error) => {
            return Err(error);
        },
    }
    match check_range("Jetty max_send_sge=", config.max_send_sge, capability.max_jfs_sge) {
        Ok(()) => {},
        Err(error) => {
            return Err(error);
        },
    }
    match check_range("Jetty max_recv_sge=", config.max_recv_sge, capability.max_jfr_sge) {
        Ok(()) => {},
        Err(error) => {
            return Err(error);
        },
    }
    if capability.max_jfs_rsge == 0 {
        return Err(invalid("device does not advertise an RC remote-SGE capability"));
    }
    Ok(())
}

/// A native resource, in the order in which start-up creates them.
#[derive(Clone, Copy, Debug, Eq, PartialEq, Structural)]
pub enum Resource {
    Native,
    Jfce,
    SendJfc,
    RecvJfc,
    Segment,
}

impl Resource {
    /// The native operation that closes the resource.
    pub open spec fn closing(self) -> Seq<char> {
        match self {
            Resource::Native => "runtime_close"@,
            Resource::Jfce => "delete_jfce"@,
            Resource::SendJfc => "delete_send_jfc"@,
            Resource::RecvJfc => "delete_recv_jfc"@,
            Resource::Segment => "unregister_segment"@,
        }
    }

    /// The native operation that closes the resource.
    pub fn closing_operation(self) -> (operation: &'static str)
        ensures
            operation@ == self.closing(),
    {
        match self {
            Resource::Native => "runtime_close",
            Resource::Jfce => "delete_jfce",
            Resource::SendJfc => "delete_send_jfc",
            Resource::RecvJfc => "delete_recv_jfc",
            Resource::Segment => "unregister_segment",
        }
    }
}

/// How far start-up has come: what is to be done next.
#[derive(Clone, Copy, Debug, Eq, PartialEq, Structural)]
pub enum StartupStage {
    Open,
    Query,
    Validate,
    CreateJfce,
    CreateSendJfc,
    CreateRecvJfc,
    RegisterSegment,
    Ready,
}

impl StartupStage {
    /// The resources that exist at this stage, in creation order.
    pub open spec fn created(self) -> Seq<Resource> {
        match self {
            StartupStage::Open => seq![],
            StartupStage::Query | StartupStage::Validate | StartupStage::CreateJfce => {
                seq![Resource::Native]
            },
            StartupStage::CreateSendJfc => seq![Resource::Native, Resource::Jfce],
            StartupStage::CreateRecvJfc => {
                seq![Resource::Native, Resource::Jfce, Resource::SendJfc]
            },
            StartupStage::RegisterSegment => {
                seq![Resource::Native, Resource::Jfce, Resource::SendJfc, Resource::RecvJfc]
            },
            StartupStage::Ready => {
                seq![
                    Resource::Native,
                    Resource::Jfce,
                    Resource::SendJfc,
                    Resource::RecvJfc,
                    Resource::Segment,
                ]
            },
        }
    }

    /// The native operation of this stage.
    pub open spec fn operation(self) -> Seq<char> {
        match self {
            StartupStage::Open => "runtime_open"@,
            StartupStage::Query => "query_device"@,
            StartupStage::Validate => "validate_config"@,
            StartupStage::CreateJfce => "create_jfce"@,
            StartupStage::CreateSendJfc => "create_send_jfc"@,
            StartupStage::CreateRecvJfc => "create_recv_jfc"@,
            StartupStage::RegisterSegment => "register_segment"@,
            StartupStage::Ready => "ready"@,
        }
    }

    /// The stage that follows.
    pub open spec fn successor(self) -> Self {
        match self {
            StartupStage::Open => StartupStage::Query,
            StartupStage::Query => StartupStage::Validate,
            StartupStage::Validate => StartupStage::CreateJfce,
            StartupStage::CreateJfce => StartupStage::CreateSendJfc,
            StartupStage::CreateSendJfc => StartupStage::CreateRecvJfc,
            StartupStage::CreateRecvJfc => StartupStage::RegisterSegment,
            StartupStage::RegisterSegment => StartupStage::Ready,
            StartupStage::Ready => StartupStage::Ready,
        }
    }

    /// What the native operation of this stage leads to: the next stage, or the error that starts
    /// the rollback.
    pub fn advance(self, outcome: core::result::Result<(), FfiError>) -> (next: Result<Self>)
        ensures
            match outcome {
                Ok(()) => next matches Ok(stage) && stage == self.successor(),
                Err(failure) => next matches Err(error) && error@ == failure.mapped(
                    self.operation(),
                ),
            },
    {
        let (operation, successor): (&'static str, StartupStage) = match self {
            StartupStage::Open => ("runtime_open", StartupStage::Query),
            StartupStage::Query => ("query_device", StartupStage::Validate),
            StartupStage::Validate => ("validate_config", StartupStage::CreateJfce),
            StartupStage::CreateJfce => ("create_jfce", StartupStage::CreateSendJfc),
            StartupStage::CreateSendJfc => ("create_send_jfc", StartupStage::CreateRecvJfc),
            StartupStage::CreateRecvJfc => ("create_recv_jfc", StartupStage::RegisterSegment),
            StartupStage::RegisterSegment => ("register_segment", StartupStage::Ready),
            StartupStage::Ready => ("ready", StartupStage::Ready),
        };
        match outcome {
            Ok(()) => Ok(successor),
            Err(failure) => Err(map_ffi_error(operation, failure)),
        }
    }

    /// The resources that a failed start-up has to close, in that order.
    pub fn rollback_order(self) -> (order: Vec<Resource>)
        ensures
            order@ == self.created().reverse(),
    {
        let mut order: Vec<Resource> = Vec::new();
        match self {
            StartupStage::Open => {},
            StartupStage::Query => order.push(Resource::Native),
            StartupStage::Validate => order.push(Resource::Native),
            StartupStage::CreateJfce => order.push(Resource::Native),
            StartupStage::CreateSendJfc => {
                order.push(Resource::Jfce);
                order.push(Resource::Native);
            },
            StartupStage::CreateRecvJfc => {
                order.push(Resource::SendJfc);
                order.push(Resource::Jfce);
                order.push(Resource::Native);
            },
            StartupStage::RegisterSegment => {
                order.push(Resource::RecvJfc);
                order.push(Resource::SendJfc);
                order.push(Resource::Jfce);
                order.push(Resource::Native);
            },
            StartupStage::Ready => {
                order.push(Resource::Segment);
                order.push(Resource::RecvJfc);
                order.push(Resource::SendJfc);
                order.push(Resource::Jfce);
                order.push(Resource::Native);
            },
        }
        assert(order@ =~= self.created().reverse());
        order
    }
}

/// Whether a device name can be handed to the native provider.
pub fn check_device_name(name: &str) -> (checked: Result<()>)
    ensures
        match checked {
            Ok(()) => !name@.contains('\0'),
            Err(error) => name@.contains('\0') && error@ == ErrorView::InvalidDeviceName,
        },
{
    for ch in it: name.chars()
        invariant
            it.seq() == name@,
            forall|i: int| 0 <= i < it.index() ==> #[trigger] name@[i] != '\0',
    {
        assert(ch == name@[it.index() as int]);
        if ch == '\0' {
            assert(name@.contains('\0'));
            return Err(Error::InvalidDeviceName);
        }
    }
    Ok(())
}

/// The texts of the closings that failed, in order.
pub open spec fn closing_failures(
    closings: Seq<(Resource, core::result::Result<(), FfiError>)>,
) -> Seq<Seq<char>>
    decreases closings.len(),
{
    if closings.len() == 0 {
        Seq::empty()
    } else {
        jetty::noted(
            closing_failures(closings.drop_last()),
            closings.last().0.closing(),
            closings.last().1,
        )
    }
}

fn collect_failures(
    closings: &Vec<(Resource, core::result::Result<(), FfiError>)>,
    from: usize,
    to: usize,
) -> (failures: Vec<String>)
    requires
        from <= to <= closings@.len(),
    ensures
        text::views(failures@) == closing_failures(closings@.subrange(from as int, to as int)),
{
    let mut failures: Vec<String> = Vec::new();
    let mut index: usize = from;
    assert(text::views(failures@) =~= Seq::empty());
    while index < to
        invariant
            from <= index <= to <= closings@.len(),
            text::views(failures@) == closing_failures(
                closings@.subrange(from as int, index as int),
            ),
        decreases to - index,
    {
        proof {
            let longer = closings@.subrange(from as int, index + 1);
            assert(longer.drop_last() =~= closings@.subrange(from as int, index as int));
            assert(longer.last() == closings@[index as int]);
        }
        note_failure(&mut failures, closings[index].0.closing_operation(), closings[index].1);
        index += 1;
    }
    failures
}

/// Where among some closings that of the native runtime stands; their number, where it is not there.
pub open spec fn native_place(
    closings: Seq<(Resource, core::result::Result<(), FfiError>)>,
) -> int
    decreases closings.len(),
{
    if closings.len() == 0 || closings[0].0 == Resource::Native {
        0
    } else {
        1 + native_place(closings.drop_first())
    }
}

/// The texts of what failed in a shutdown, in order: the pool is closed before the native runtime.
pub open spec fn shutdown_failures(
    closings: Seq<(Resource, core::result::Result<(), FfiError>)>,
    pool_failure: Option<ErrorView>,
) -> Seq<Seq<char>> {
    let place = native_place(closings);
    closing_failures(closings.take(place)) + (match pool_failure {
        Some(error) => seq![error.text()],
        None => seq![],
    }) + closing_failures(closings.skip(place))
}

fn find_native(closings: &Vec<(Resource, core::result::Result<(), FfiError>)>) -> (place: usize)
    ensures
        place == native_place(closings@),
        place <= closings@.len(),
{
    let mut place: usize = 0;
    assert(closings@.skip(0) =~= closings@);
    while place < closings.len() && closings[place].0 != Resource::Native
        invariant
            place <= closings@.len(),
            native_place(closings@) == place + native_place(closings@.skip(place as int)),
        decreases closings@.len() - place,
    {
        assert(closings@.skip(place as int).drop_first() =~= closings@.skip(place + 1));
        place += 1;
    }
    place
}

/// The error of a failed start-up, for what closing the created resources gave.
pub fn rollback_startup(
    primary: Error,
    closings: Vec<(Resource, core::result::Result<(), FfiError>)>,
) -> (error: Error)
    ensures
        error@ == if closing_failures(closings@).len() == 0 {
            primary@
        } else {
            ErrorView::StartupRollback {
                primary: Box::new(primary@),
                cleanup_failures: closing_failures(closings@),
            }
        },
{
    let cleanup_failures = collect_failures(&closings, 0, closings.len());
    assert(closings@.subrange(0, closings@.len() as int) =~= closings@);
    assert(text::views(cleanup_failures@).len() == cleanup_failures@.len());
    if cleanup_failures.len() == 0 {
        primary
    } else {
        Error::StartupRollback { primary: Box::new(primary), cleanup_failures }
    }
}

/// Whether a runtime of this process owns the native provider.
pub struct ProcessGuard {
    active: bool,
}

impl ProcessGuard {
    /// Whether a runtime owns the provider, or left it in an uncertain state.
    pub closed spec fn held(self) -> bool {
        self.active
    }

    /// A guard that nothing holds.
    pub fn new() -> (guard: Self)
        ensures
            !guard.held(),
    {
        ProcessGuard { active: false }
    }

    /// Takes the guard for a start-up.
    pub fn acquire(&mut self) -> (acquired: Result<()>)
        ensures
            final(self).held(),
            match acquired {
                Ok(()) => !old(self).held(),
                Err(error) => old(self).held() && error@ == ErrorView::AlreadyInitialized,
            },
    {
        if self.active {
            return Err(Error::AlreadyInitialized);
        }
        self.active = true;
        Ok(())
    }

    /// Takes in how a start-up that held the guard ended. A failed rollback keeps the guard: the
    /// native state is uncertain.
    pub fn settle_startup(&mut self, failure: Option<&Error>)
        ensures
            final(self).held() == match failure {
                None => old(self).held(),
                Some(error) => old(self).held() && error@ is StartupRollback,
            },
    {
        match failure {
            None => {},
            Some(Error::StartupRollback { .. }) => {},
            Some(_) => {
                self.active = false;
            },
        }
    }

    /// Takes in how a shutdown ended.
    pub fn settle_shutdown(&mut self, clean: bool)
        ensures
            final(self).held() == (old(self).held() && !clean),
    {
        if clean {
            self.active = false;
        }
    }
}

/// The process-level owner of the native resource tree.
pub struct UrmaRuntime {
    config: RuntimeConfig,
    capability: UrmaDeviceCapability,
    buffer_pool: Option<UrmaBufferPool>,
    recv_jfc: bool,
    send_jfc: bool,
    jfce: bool,
    native: bool,
    accepting: bool,
    poisoned: bool,
    next_connection_id: u16,
}

/// What a runtime holds.
pub struct RuntimeView {
    pub config: RuntimeConfig,
    pub capability: UrmaDeviceCapability,
    pub pool: Option<PoolView>,
    pub recv_jfc: bool,
    pub send_jfc: bool,
    pub jfce: bool,
    pub native: bool,
    pub accepting: bool,
    pub poisoned: bool,
    pub next_connection_id: u16,
}

impl View for UrmaRuntime {
    type V = RuntimeView;

    closed spec fn view(&self) -> RuntimeView {
        RuntimeView {
            config: self.config,
            capability: self.capability,
            pool: match self.buffer_pool {
                Some(pool) => Some(pool@),
                None => None,
            },
            recv_jfc: self.recv_jfc,
            send_jfc: self.send_jfc,
            jfce: self.jfce,
            native: self.native,
            accepting: self.accepting,
            poisoned: self.poisoned,
            next_connection_id: self.next_connection_id,
        }
    }
}

impl RuntimeView {
    /// The error that a connection is refused with before it takes an identity, if it is.
    pub open spec fn identity_error(self, config: JettyConfig) -> Option<ErrorView> {
        if !self.accepting {
            Some(
                ErrorView::InvalidConfiguration("runtime is no longer accepting operations"@),
            )
        } else if jetty_config_error(config, self.capability) is Some {
            jetty_config_error(config, self.capability)
        } else if self.next_connection_id == u16::MAX {
            Some(ErrorView::InvalidConfiguration("connection id space exhausted"@))
        } else {
            None
        }
    }

    /// The error that a connection is refused with, if it is refused.
    pub open spec fn connection_error(self, config: JettyConfig) -> Option<ErrorView> {
        if self.identity_error(config) is Some {
            self.identity_error(config)
        } else {
            self.missing_resource()
        }
    }

    /// The error for a resource that was closed, if one was.
    pub open spec fn missing_resource(self) -> Option<ErrorView> {
        if !self.native {
            Some(ErrorView::InvalidConfiguration("runtime is closed"@))
        } else if !self.send_jfc {
            Some(ErrorView::InvalidConfiguration("send JFC is closed"@))
        } else if !self.recv_jfc {
            Some(ErrorView::InvalidConfiguration("receive JFC is closed"@))
        } else if !self.jfce {
            Some(ErrorView::InvalidConfiguration("JFCE is closed"@))
        } else if self.pool is None {
            Some(ErrorView::InvalidConfiguration("buffer pool is closed"@))
        } else {
            None
        }
    }

    /// The resources that a shutdown closes, in that order.
    pub open spec fn shutdown_order(self) -> Seq<Resource> {
        (if self.recv_jfc {
            seq![Resource::RecvJfc]
        } else {
            seq![]
        }) + (if self.send_jfc {
            seq![Resource::SendJfc]
        } else {
            seq![]
        }) + (if self.jfce {
            seq![Resource::Jfce]
        } else {
            seq![]
        }) + (if self.pool is Some {
            seq![Resource::Segment]
        } else {
            seq![]
        }) + (if self.native {
            seq![Resource::Native]
        } else {
            seq![]
        })
    }
}

impl UrmaRuntime {
    /// The pool's invariant, where there is one, and that connection identities are not zero.
    pub closed spec fn wf(self) -> bool {
        &&& self.buffer_pool matches Some(pool) ==> pool.wf()
        &&& self.next_connection_id >= 1
    }

    /// Starts the native provider, which this build does not hold.
    pub fn start(config: RuntimeConfig) -> (runtime: Result<Self>)
        ensures
            runtime matches Err(error) && error@ == ErrorView::FeatureDisabled,
    {
        Err(Error::FeatureDisabled)
    }

    /// The same as [`Self::start`].
    pub fn open(config: RuntimeConfig) -> (runtime: Result<Self>)
        ensures
            runtime matches Err(error) && error@ == ErrorView::FeatureDisabled,
    {
        Self::start(config)
    }

    /// The runtime once every native resource was created. `pool_id` tells its pool from others.
    pub fn started(config: RuntimeConfig, capability: UrmaDeviceCapability, pool_id: u64) -> (runtime:
        Result<Self>)
        ensures
            match runtime {
                Ok(runtime) => {
                    &&& runtime.wf()
                    &&& PoolView::create_error(config.buffer_pool) is None
                    &&& runtime@ == (RuntimeView {
                        config,
                        capability,
                        pool: Some(PoolView::fresh(config.buffer_pool, pool_id)),
                        recv_jfc: true,
                        send_jfc: true,
                        jfce: true,
                        native: true,
                        accepting: true,
                        poisoned: false,
                        next_connection_id: 1,
                    })
                },
                Err(error) => PoolView::create_error(config.buffer_pool) == Some(error@),
            },
    {
        let layout = BufferPoolConfig {
            slot_size: config.buffer_pool.slot_size,
            tx_slot_count: config.buffer_pool.tx_slot_count,
            rx_slot_count: config.buffer_pool.rx_slot_count,
            alignment: config.buffer_pool.alignment,
            alias_tx_slots: config.buffer_pool.alias_tx_slots,
        };
        match UrmaBufferPool::create(layout, pool_id) {
            Ok(pool) => Ok(
                UrmaRuntime {
                    config,
                    capability,
                    buffer_pool: Some(pool),
                    recv_jfc: true,
                    send_jfc: true,
                    jfce: true,
                    native: true,
                    accepting: true,
                    poisoned: false,
                    next_connection_id: 1,
                },
            ),
            Err(error) => Err(error),
        }
    }

    pub fn config(&self) -> (config: &RuntimeConfig)
        ensures
            *config == self@.config,
    {
        &self.config
    }

    pub fn capability(&self) -> (capability: &UrmaDeviceCapability)
        ensures
            *capability == self@.capability,
    {
        &self.capability
    }

    /// The depths of the send and the receive completion queue; zero for one that was closed.
    pub fn jfc_depths(&self) -> (depths: (u32, u32))
        ensures
            depths.0 == if self@.send_jfc {
                self@.config.send_jfc_depth
            } else {
                0
            },
            depths.1 == if self@.recv_jfc {
                self@.config.recv_jfc_depth
            } else {
                0
            },
    {
        (
            if self.send_jfc {
                self.config.send_jfc_depth
            } else {
                0
            },
            if self.recv_jfc {
                self.config.recv_jfc_depth
            } else {
                0
            },
        )
    }

    /// The size and the alignment of the registered segment.
    pub fn registered_memory_layout(&self) -> (layout: Option<(usize, usize)>)
        requires
            self.wf(),
        ensures
            match self@.pool {
                Some(pool) => {
                    &&& layout matches Some((length, alignment))
                    &&& length == if pool.open {
                        pool.config.total()
                    } else {
                        0
                    }
                    &&& alignment == pool.config.alignment
                },
                None => layout is None,
            },
    {
        match &self.buffer_pool {
            Some(pool) => Some((pool.registered_len(), pool.alignment())),
            None => None,
        }
    }

    /// Takes a free slot.
    pub fn allocate_slot(&mut self, kind: SlotKind) -> (allocated: Option<SlotId>)
        requires
            old(self).wf(),
        ensures
            final(self).wf(),
            match allocated {
                Some(id) => {
                    &&& old(self)@.accepting
                    &&& old(self)@.pool matches Some(pool)
                    &&& pool.accepting
                    &&& pool.next_free(kind) == Some(id.position() as usize)
                    &&& final(self)@ == (RuntimeView {
                        pool: Some(pool.after_allocate(kind)),
                        ..old(self)@
                    })
                },
                None => {
                    &&& !old(self)@.accepting || old(self)@.pool is None
                        || !old(self)@.pool->0.accepting || old(self)@.pool->0.next_free(
                        kind,
                    ) is None
                    &&& final(self)@ == old(self)@
                },
            },
    {
        if !self.accepting {
            return None;
        }
        match self.buffer_pool.take() {
            Some(pool) => {
                let mut pool = pool;
                let allocated = pool.allocate(kind);
                self.buffer_pool = Some(pool);
                allocated
            },
            None => None,
        }
    }

    /// Gives a slot back.
    pub fn release_slot(&mut self, id: SlotId) -> (released: Result<()>)
        requires
            old(self).wf(),
        ensures
            final(self).wf(),
            match released {
                Ok(()) => {
                    &&& old(self)@.pool matches Some(pool)
                    &&& pool.release_error(id) is None
                    &&& final(self)@ == (RuntimeView {
                        pool: Some(pool.after_release(id)),
                        ..old(self)@
                    })
                },
                Err(error) => {
                    &&& final(self)@ == old(self)@
                    &&& match old(self)@.pool {
                        Some(pool) => pool.release_error(id) == Some(error@),
                        None => error@ == ErrorView::InvalidConfiguration("buffer pool is closed"@),
                    }
                },
            },
    {
        match self.buffer_pool.take() {
            Some(pool) => {
                let mut pool = pool;
                let released = pool.release(id);
                self.buffer_pool = Some(pool);
                released
            },
            None => Err(invalid("buffer pool is closed")),
        }
    }

    /// The state of a slot.
    pub fn slot_state(&self, id: SlotId) -> (state: Option<SlotState>)
        ensures
            state == match self@.pool {
                Some(pool) => if pool.has(id) {
                    Some(pool.state(id))
                } else {
                    None
                },
                None => None,
            },
    {
        match &self.buffer_pool {
            Some(pool) => pool.slot_state(id),
            None => None,
        }
    }

    /// Checks that a connection can be made and takes an identity for it. The identity is spent
    /// even where a resource turns out to be closed.
    pub fn begin_connection(&mut self, config: &JettyConfig) -> (begun: Result<u16>)
        requires
            old(self).wf(),
        ensures
            final(self).wf(),
            match begun {
                Ok(connection_id) => {
                    &&& old(self)@.connection_error(*config) is None
                    &&& connection_id == old(self)@.next_connection_id
                    &&& connection_id != 0
                    &&& final(self)@ == (RuntimeView {
                        next_connection_id: (connection_id + 1) as u16,
                        ..old(self)@
                    })
                },
                Err(error) => {
                    &&& old(self)@.connection_error(*config) == Some(error@)
                    &&& final(self)@ == if old(self)@.identity_error(*config) is Some {
                        old(self)@
                    } else {
                        RuntimeView {
                            next_connection_id: (old(self)@.next_connection_id + 1) as u16,
                            ..old(self)@
                        }
                    }
                },
            },
    {
        if !self.accepting {
            return Err(invalid("runtime is no longer accepting operations"));
        }
        match validate_jetty_config(config, &self.capability) {
            Ok(()) => {},
            Err(error) => {
                return Err(error);
            },
        }
        let connection_id: u16 = self.next_connection_id;
        if connection_id == u16::MAX {
            return Err(invalid("connection id space exhausted"));
        }
        self.next_connection_id = connection_id + 1;
        if !self.native {
            return Err(invalid("runtime is closed"));
        }
        if !self.send_jfc {
            return Err(invalid("send JFC is closed"));
        }
        if !self.recv_jfc {
            return Err(invalid("receive JFC is closed"));
        }
        if !self.jfce {
            return Err(invalid("JFCE is closed"));
        }
        if self.buffer_pool.is_none() {
            return Err(invalid("buffer pool is closed"));
        }
        Ok(connection_id)
    }

    /// The connection for what creating its Jetty natively gave. It takes the pool along until
    /// [`Self::end_connection`].
    pub fn create_connection(&mut self, config: &JettyConfig, connection_id: u16, created: core::result::Result<
        (),
        FfiError,
    >) -> (connection: Result<UrmaConnection>)
        requires
            old(self).wf(),
            connection_id != 0,
        ensures
            final(self).wf(),
            match connection {
                Ok(connection) => {
                    &&& created is Ok
                    &&& old(self)@.pool matches Some(pool)
                    &&& connection.wf()
                    &&& connection@ == crate::connection::ConnectionView::fresh(
                        pool,
                        old(self)@.capability.negotiated(),
                        connection_id,
                        config.token,
                    )
                    &&& final(self)@ == (RuntimeView { pool: None, ..old(self)@ })
                },
                Err(error) => {
                    &&& final(self)@ == old(self)@
                    &&& match old(self)@.pool {
                        None => error@ == ErrorView::InvalidConfiguration("buffer pool is closed"@),
                        Some(_) => {
                            &&& created matches Err(failure)
                            &&& error@ == failure.mapped("create_jetty"@)
                        },
                    }
                },
            },
    {
        match self.buffer_pool.take() {
            Some(pool) => match UrmaJetty::create(config, created) {
                Ok(jetty) => {
                    Ok(
                        UrmaConnection::new(
                            CapabilityWire::from_capability(&self.capability),
                            jetty,
                            pool,
                            connection_id,
                        ),
                    )
                },
                Err(error) => {
                    self.buffer_pool = Some(pool);
                    Err(error)
                },
            },
            None => Err(invalid("buffer pool is closed")),
        }
    }

    /// Takes the pool of a closed connection back.
    pub fn end_connection(&mut self, pool: UrmaBufferPool)
        requires
            old(self).wf(),
            pool.wf(),
            old(self)@.pool is None,
        ensures
            final(self).wf(),
            final(self)@ == (RuntimeView { pool: Some(pool@), ..old(self)@ }),
    {
        self.buffer_pool = Some(pool);
    }

    /// Begins a shutdown: nothing more is given out. Gives the resources to close, in order.
    pub fn shutdown(&mut self) -> (order: Result<Vec<Resource>>)
        requires
            old(self).wf(),
        ensures
            final(self).wf(),
            match order {
                Ok(order) => {
                    &&& !old(self)@.poisoned
                    &&& order@ == old(self)@.shutdown_order()
                    &&& final(self)@ == (RuntimeView { accepting: false, ..old(self)@ })
                },
                Err(error) => {
                    &&& old(self)@.poisoned
                    &&& error@ == (ErrorView::Shutdown {
                        failures: seq![
                            "a previous shutdown attempt left native state uncertain"@,
                        ],
                    })
                    &&& final(self)@ == old(self)@
                },
            },
    {
        if self.poisoned {
            let mut failures: Vec<String> = Vec::new();
            failures.push("a previous shutdown attempt left native state uncertain".to_owned());
            assert(text::views(failures@) =~= seq![
                "a previous shutdown attempt left native state uncertain"@,
            ]);
            return Err(Error::Shutdown { failures });
        }
        self.accepting = false;
        let mut order: Vec<Resource> = Vec::new();
        if self.recv_jfc {
            order.push(Resource::RecvJfc);
        }
        if self.send_jfc {
            order.push(Resource::SendJfc);
        }
        if self.jfce {
            order.push(Resource::Jfce);
        }
        if self.buffer_pool.is_some() {
            order.push(Resource::Segment);
        }
        if self.native {
            order.push(Resource::Native);
        }
        assert(order@ =~= old(self)@.shutdown_order());
        Ok(order)
    }

    /// Gives up the pool's segment during a shutdown; says whether it is to be unregistered.
    pub fn close_pool(&mut self) -> (closed: Result<bool>)
        requires
            old(self).wf(),
        ensures
            final(self).wf(),
            final(self)@ == (RuntimeView { pool: None, ..old(self)@ }),
            match closed {
                Ok(unregister) => match old(self)@.pool {
                    Some(pool) => pool.leases == 0 && unregister == pool.open,
                    None => !unregister,
                },
                Err(error) => {
                    &&& old(self)@.pool matches Some(pool)
                    &&& pool.leases > 0
                    &&& error@ == ErrorView::InvalidConfiguration(
                        "cannot close registered Segment with "@ + text::decimal(pool.leases)
                            + " active RX leases"@,
                    )
                },
            },
    {
        match self.buffer_pool.take() {
            Some(pool) => {
                let mut pool = pool;
                pool.close()
            },
            None => Ok(false),
        }
    }

    /// Ends a shutdown, for what closing the resources gave. A failure leaves the native state
    /// uncertain, and no second shutdown is tried.
    pub fn close(
        &mut self,
        closings: Vec<(Resource, core::result::Result<(), FfiError>)>,
        pool_failure: Option<Error>,
    ) -> (closed: Result<()>)
        requires
            old(self).wf(),
        ensures
            final(self).wf(),
            ({
                let failures = shutdown_failures(
                    closings@,
                    match pool_failure {
                        Some(error) => Some(error@),
                        None => None,
                    },
                );
                &&& match closed {
                    Ok(()) => failures.len() == 0,
                    Err(error) => failures.len() > 0 && error@ == (ErrorView::Shutdown { failures }),
                }
                &&& final(self)@ == (RuntimeView {
                    pool: None,
                    recv_jfc: false,
                    send_jfc: false,
                    jfce: false,
                    native: false,
                    poisoned: old(self)@.poisoned || failures.len() > 0,
                    ..old(self)@
                })
            }),
    {
        let place: usize = find_native(&closings);
        let mut failures = collect_failures(&closings, 0, place);
        let mut native_failures = collect_failures(&closings, place, closings.len());
        assert(closings@.subrange(0, place as int) =~= closings@.take(place as int));
        assert(closings@.subrange(place as int, closings@.len() as int) =~= closings@.skip(
            place as int,
        ));
        let ghost earlier = text::views(failures@);
        let ghost later = text::views(native_failures@);
        match &pool_failure {
            Some(error) => {
                failures.push(error.to_string());
                assert(text::views(failures@) =~= earlier + seq![error@.text()]);
            },
            None => {
                assert(text::views(failures@) =~= earlier + seq![]);
            },
        }
        let ghost closed_first = text::views(failures@);
        failures.append(&mut native_failures);
        assert(text::views(failures@) =~= closed_first + later);
        assert(text::views(failures@).len() == failures@.len());
        self.buffer_pool = None;
        self.recv_jfc = false;
        self.send_jfc = false;
        self.jfce = false;
        self.native = false;
        if failures.len() == 0 {
            Ok(())
        } else {
            self.poisoned = true;
            Err(Error::Shutdown { failures })
        }
    }
}

/// A failed start-up closes what it created in the reverse order, whatever the stage.
pub proof fn rollback_reverses_creation(stage: StartupStage)
    ensures
        stage.created().is_prefix_of(stage.successor().created()),
        stage.created().len() <= stage.successor().created().len() <= stage.created().len() + 1,
        stage.created().no_duplicates(),
{
}

} // verus!
