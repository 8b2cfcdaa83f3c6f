//! One connection: its state, its posted work requests, and what it does with completions.
//!
//! Every call into the native provider stands outside. Posting comes in two steps: a `plan` that
//! gives the work requests to hand to the provider, and the posting itself, which takes the
//! provider's answer along.

use std::collections::VecDeque;

use vstd::prelude::*;

use crate::buffer::{PoolView, SlotKind, SlotStateSnapshot, UrmaBufferPool};
use crate::completion;
use crate::completion::{CompletionDiagnostic, CompletionPoller, CompletionStats, PlaneView};
use crate::error::{protocol, Error, ErrorView, Result};
use crate::jetty;
use crate::jetty::{JettyDescriptor, JettyDescriptorData, JettyView, UrmaJetty};
use crate::provider::{map_ffi_error, FfiError};
use crate::runtime::CapabilityWire;
use crate::text;
use crate::text::with_numbers;
use crate::wr::{OperationType, ReceiveCredit};

pub mod closing;
pub mod laws;
pub mod polling;
pub mod posting;
pub mod sending;
pub mod single;

verus! {

/// Where a connection is in its life.
#[derive(Clone, Copy, Debug, Eq, PartialEq, Structural)]
pub enum ConnectionState {
    Init,
    ContextReady,
    JettyCreated,
    DescriptorExchanged,
    Bound,
    Ready,
    Draining,
    Failed,
    Closed,
}

impl ConnectionState {
    /// The state's name.
    pub open spec fn name(self) -> Seq<char> {
        match self {
            ConnectionState::Init => "Init"@,
            ConnectionState::ContextReady => "ContextReady"@,
            ConnectionState::JettyCreated => "JettyCreated"@,
            ConnectionState::DescriptorExchanged => "DescriptorExchanged"@,
            ConnectionState::Bound => "Bound"@,
            ConnectionState::Ready => "Ready"@,
            ConnectionState::Draining => "Draining"@,
            ConnectionState::Failed => "Failed"@,
            ConnectionState::Closed => "Closed"@,
        }
    }

    /// The state's name.
    pub fn label(self) -> (label: &'static str)
        ensures
            label@ == self.name(),
    {
        match self {
            ConnectionState::Init => "Init",
            ConnectionState::ContextReady => "ContextReady",
            ConnectionState::JettyCreated => "JettyCreated",
            ConnectionState::DescriptorExchanged => "DescriptorExchanged",
            ConnectionState::Bound => "Bound",
            ConnectionState::Ready => "Ready",
            ConnectionState::Draining => "Draining",
            ConnectionState::Failed => "Failed",
            ConnectionState::Closed => "Closed",
        }
    }
}

/// One connection over a pool of registered slots.
pub struct UrmaConnection {
    state: ConnectionState,
    capability: CapabilityWire,
    jetty: UrmaJetty,
    pool: UrmaBufferPool,
    poller: CompletionPoller,
    receive_credit: ReceiveCredit,
    pending_frames: VecDeque<Vec<u8>>,
    send_completion_interval: usize,
    sends_since_completion: usize,
}

/// What a connection is.
#[verifier::ext_equal]
pub struct ConnectionView {
    pub state: ConnectionState,
    pub capability: CapabilityWire,
    pub jetty: JettyView,
    /// The outstanding work requests and the pool.
    pub plane: PlaneView,
    /// How many receives are posted.
    pub credit: nat,
    /// Whether a receive was ever posted.
    pub credit_started: bool,
    /// The received messages that nobody took yet.
    pub frames: Seq<Seq<u8>>,
    /// At most this many sends go out per completion asked for.
    pub interval: nat,
    /// The sends since the last one that asked for a completion.
    pub since: nat,
}

impl View for UrmaConnection {
    type V = ConnectionView;

    closed spec fn view(&self) -> ConnectionView {
        ConnectionView {
            state: self.state,
            capability: self.capability,
            jetty: self.jetty@,
            plane: completion::poller::plane(self.poller, self.pool),
            credit: self.receive_credit.count(),
            credit_started: self.receive_credit.started(),
            frames: self.pending_frames@.map_values(|frame: Vec<u8>| frame@),
            interval: self.send_completion_interval as nat,
            since: self.sends_since_completion as nat,
        }
    }
}

impl ConnectionView {
    /// A connection's invariant.
    pub open spec fn wf(self) -> bool {
        &&& self.plane.wf()
        &&& self.plane.poller.connection_id != 0
        &&& self.plane.poller.generation != 0
        &&& self.since < self.interval
    }

    /// A new connection.
    pub open spec fn fresh(
        pool: PoolView,
        capability: CapabilityWire,
        connection_id: u16,
        token: u32,
    ) -> Self {
        ConnectionView {
            state: ConnectionState::JettyCreated,
            capability,
            jetty: JettyView { token, imported: false, bound: false },
            plane: PlaneView {
                poller: completion::PollerView::idle(connection_id, 1),
                pool,
            },
            credit: 0,
            credit_started: false,
            frames: Seq::empty(),
            interval: 1,
            since: 0,
        }
    }

    /// The error for a state that an operation does not expect, if it is another.
    pub open spec fn require_error(self, expected: ConnectionState) -> Option<ErrorView> {
        if self.state == expected {
            None
        } else {
            Some(
                ErrorView::Protocol(
                    "connection state "@ + self.state.name() + ", expected "@ + expected.name(),
                ),
            )
        }
    }

    /// The error for an operation that the state does not allow.
    pub open spec fn state_error(self, operation: Seq<char>) -> ErrorView {
        ErrorView::Protocol("cannot "@ + operation + " while connection is "@ + self.state.name())
    }

    /// The connection in the failed state, unless it is closed.
    pub open spec fn failed(self) -> Self {
        ConnectionView {
            state: if self.state == ConnectionState::Closed {
                self.state
            } else {
                ConnectionState::Failed
            },
            ..self
        }
    }

    /// The error that a remote descriptor is refused with, if it is refused.
    pub open spec fn import_error(self, transport_type: u32) -> Option<ErrorView> {
        if self.state != ConnectionState::JettyCreated && self.state
            != ConnectionState::DescriptorExchanged {
            Some(self.state_error("import descriptor"@))
        } else if self.capability.transport_type < 0 {
            Some(ErrorView::Protocol("local transport type is negative"@))
        } else if transport_type != self.capability.transport_type {
            Some(
                ErrorView::Protocol(
                    "remote transport type "@ + text::decimal(transport_type as nat)
                        + " does not match local "@ + text::decimal(
                        self.capability.transport_type as nat,
                    ) + ""@,
                ),
            )
        } else {
            None
        }
    }
}

impl UrmaConnection {
    /// A connection's invariant.
    pub closed spec fn wf(self) -> bool {
        &&& completion::poller::plane_wf(self.poller, self.pool)
        &&& self@.wf()
    }

    /// What a well-formed connection stands for is well-formed.
    pub proof fn lemma_view_wf(self)
        requires
            self.wf(),
        ensures
            self@.wf(),
    {
    }

    /// A new connection on a created Jetty.
    pub(crate) fn new(
        capability: CapabilityWire,
        jetty: UrmaJetty,
        pool: UrmaBufferPool,
        connection_id: u16,
    ) -> (connection: Self)
        requires
            pool.wf(),
            connection_id != 0,
        ensures
            connection.wf(),
            connection@ == (ConnectionView {
                jetty: jetty@,
                ..ConnectionView::fresh(pool@, capability, connection_id, jetty@.token)
            }),
    {
        let connection = UrmaConnection {
            state: ConnectionState::JettyCreated,
            capability,
            jetty,
            pool,
            poller: CompletionPoller::idle(connection_id, 1, 16),
            receive_credit: ReceiveCredit::default(),
            pending_frames: VecDeque::new(),
            send_completion_interval: 1,
            sends_since_completion: 0,
        };
        assert(connection@.frames =~= Seq::empty());
        connection
    }

    pub fn state(&self) -> (state: ConnectionState)
        ensures
            state == self@.state,
    {
        self.state
    }

    pub fn capability(&self) -> (capability: CapabilityWire)
        ensures
            capability == self@.capability,
    {
        self.capability
    }

    fn require(&self, expected: ConnectionState) -> (checked: Result<()>)
        ensures
            match checked {
                Ok(()) => self@.require_error(expected) is None,
                Err(error) => self@.require_error(expected) == Some(error@),
            },
    {
        if self.state == expected {
            return Ok(());
        }
        let mut detail = "connection state ".to_owned();
        detail.append(self.state.label());
        detail.append(", expected ");
        detail.append(expected.label());
        Err(Error::Protocol(detail))
    }

    fn state_error(&self, operation: &str) -> (error: Error)
        ensures
            error@ == self@.state_error(operation@),
    {
        let mut detail = "cannot ".to_owned();
        detail.append(operation);
        detail.append(" while connection is ");
        detail.append(self.state.label());
        Error::Protocol(detail)
    }

    /// Puts the connection in the failed state, unless it is closed.
    pub fn fail(&mut self)
        requires
            old(self).wf(),
        ensures
            final(self).wf(),
            final(self)@ == old(self)@.failed(),
    {
        if self.state != ConnectionState::Closed {
            self.state = ConnectionState::Failed;
        }
    }

    /// Takes in what exporting the local descriptor natively gave.
    pub fn export_descriptor(
        &mut self,
        exported: core::result::Result<JettyDescriptorData, FfiError>,
    ) -> (descriptor: Result<JettyDescriptor>)
        requires
            old(self).wf(),
        ensures
            final(self).wf(),
            ({
                let allowed = old(self)@.state == ConnectionState::JettyCreated || old(self)@.state
                    == ConnectionState::DescriptorExchanged;
                let made = match exported {
                    Ok(raw) => raw.described(),
                    Err(failure) => Err(failure.mapped("get_rjetty"@)),
                };
                &&& match descriptor {
                    Ok(descriptor) => allowed && made == Ok::<jetty::DescriptorView, ErrorView>(
                        descriptor@,
                    ),
                    Err(error) => if !allowed {
                        error@ == old(self)@.state_error("export descriptor"@)
                    } else {
                        made == Err::<jetty::DescriptorView, ErrorView>(error@)
                    },
                }
                &&& final(self)@ == if descriptor is Ok {
                    ConnectionView { state: ConnectionState::DescriptorExchanged, ..old(self)@ }
                } else {
                    old(self)@
                }
            }),
    {
        if self.state != ConnectionState::JettyCreated && self.state
            != ConnectionState::DescriptorExchanged {
            return Err(self.state_error("export descriptor"));
        }
        match exported {
            Ok(raw) => match JettyDescriptor::from_ffi(raw) {
                Ok(descriptor) => {
                    self.state = ConnectionState::DescriptorExchanged;
                    Ok(descriptor)
                },
                Err(error) => Err(error),
            },
            Err(failure) => Err(map_ffi_error("get_rjetty", failure)),
        }
    }

    /// Whether a remote descriptor can be imported; gives what the provider is to import.
    pub fn begin_import(&mut self, descriptor: &JettyDescriptor) -> (begun: Result<JettyDescriptorData>)
        requires
            old(self).wf(),
        ensures
            final(self).wf(),
            ({
                let refused = old(self)@.import_error(descriptor.transport_type);
                &&& match begun {
                    Ok(raw) => {
                        &&& refused is None
                        &&& old(self)@.jetty.import_error(descriptor@) is None
                        &&& raw.names(descriptor@)
                    },
                    Err(error) => if refused is Some {
                        refused == Some(error@)
                    } else {
                        old(self)@.jetty.import_error(descriptor@) == Some(error@)
                    },
                }
                &&& final(self)@ == if refused is Some {
                    old(self)@
                } else {
                    ConnectionView { state: ConnectionState::DescriptorExchanged, ..old(self)@ }
                }
            }),
    {
        if self.state != ConnectionState::JettyCreated && self.state
            != ConnectionState::DescriptorExchanged {
            return Err(self.state_error("import descriptor"));
        }
        if self.capability.transport_type < 0 {
            return Err(protocol("local transport type is negative"));
        }
        let local: u32 = self.capability.transport_type as u32;
        if descriptor.transport_type != local {
            return Err(
                Error::Protocol(
                    with_numbers(
                        "remote transport type ",
                        descriptor.transport_type as u64,
                        " does not match local ",
                        local as u64,
                        "",
                    ),
                ),
            );
        }
        self.state = ConnectionState::DescriptorExchanged;
        self.jetty.prepare_import(descriptor)
    }

    /// Takes in what importing natively gave.
    pub fn import(&mut self, outcome: core::result::Result<(), FfiError>) -> (imported: Result<()>)
        requires
            old(self).wf(),
        ensures
            final(self).wf(),
            match outcome {
                Ok(()) => {
                    &&& imported is Ok
                    &&& final(self)@ == (ConnectionView {
                        jetty: JettyView { imported: true, ..old(self)@.jetty },
                        ..old(self)@
                    })
                },
                Err(failure) => {
                    &&& imported matches Err(error)
                    &&& error@ == failure.mapped("import_jetty"@)
                    &&& final(self)@ == old(self)@
                },
            },
    {
        self.jetty.import(outcome)
    }

    /// Binds to the imported Jetty, for what binding natively gave.
    pub fn import_and_bind(&mut self, outcome: core::result::Result<(), FfiError>) -> (bound: Result<
        (),
    >)
        requires
            old(self).wf(),
        ensures
            final(self).wf(),
            match bound {
                Ok(()) => {
                    &&& old(self)@.jetty.imported
                    &&& outcome is Ok
                    &&& final(self)@ == (ConnectionView {
                        state: ConnectionState::Bound,
                        jetty: JettyView { bound: true, ..old(self)@.jetty },
                        ..old(self)@
                    })
                },
                Err(error) => {
                    &&& final(self)@ == old(self)@
                    &&& if !old(self)@.jetty.imported {
                        error@ == ErrorView::Protocol("bind requires an imported Jetty"@)
                    } else {
                        outcome matches Err(failure) && error@ == failure.mapped("bind_jetty"@)
                    }
                },
            },
    {
        match self.jetty.require_imported() {
            Ok(()) => {},
            Err(error) => {
                return Err(error);
            },
        }
        match self.jetty.bind(outcome) {
            Ok(()) => {
                self.state = ConnectionState::Bound;
                Ok(())
            },
            Err(error) => Err(error),
        }
    }

    /// Takes in that both sides are bound.
    pub fn mark_ready(&mut self) -> (marked: Result<()>)
        requires
            old(self).wf(),
        ensures
            final(self).wf(),
            match marked {
                Ok(()) => {
                    &&& old(self)@.require_error(ConnectionState::Bound) is None
                    &&& final(self)@ == (ConnectionView {
                        state: ConnectionState::Ready,
                        ..old(self)@
                    })
                },
                Err(error) => {
                    &&& old(self)@.require_error(ConnectionState::Bound) == Some(error@)
                    &&& final(self)@ == old(self)@
                },
            },
    {
        match self.require(ConnectionState::Bound) {
            Ok(()) => {
                self.state = ConnectionState::Ready;
                Ok(())
            },
            Err(error) => Err(error),
        }
    }

    pub fn stats(&self) -> (stats: CompletionStats)
        ensures
            stats == self@.plane.poller.stats,
    {
        self.poller.stats()
    }

    pub fn outstanding_send(&self) -> (count: usize)
        ensures
            count == self@.plane.poller.send_order.len(),
    {
        self.poller.outstanding_send()
    }

    pub fn outstanding_recv(&self) -> (count: usize)
        ensures
            count == self@.plane.poller.receives,
    {
        self.poller.outstanding_recv()
    }

    pub fn receive_credit(&self) -> (count: usize)
        ensures
            count == self@.credit,
    {
        self.receive_credit.current()
    }

    pub fn tx_slot_state_snapshot(&self) -> (snapshot: SlotStateSnapshot)
        requires
            self.wf(),
        ensures
            snapshot.counts(self@.plane.pool.states.take(self@.plane.pool.tx())),
    {
        self.pool.slot_state_snapshot(SlotKind::Tx)
    }

    pub fn rx_slot_state_snapshot(&self) -> (snapshot: SlotStateSnapshot)
        requires
            self.wf(),
        ensures
            snapshot.counts(self@.plane.pool.states.skip(self@.plane.pool.tx())),
    {
        self.pool.slot_state_snapshot(SlotKind::Rx)
    }

    pub fn pending_send_diagnostic(&self) -> (diagnostic: CompletionDiagnostic)
        requires
            self.wf(),
        ensures
            self@.plane.lists_pending(OperationType::Send, diagnostic.pending@),
            diagnostic.last_completed_sequence == self@.plane.poller.last_send,
    {
        self.poller.diagnostic(OperationType::Send, &self.pool)
    }

    pub fn pending_recv_diagnostic(&self) -> (diagnostic: CompletionDiagnostic)
        requires
            self.wf(),
        ensures
            self@.plane.lists_pending(OperationType::Recv, diagnostic.pending@),
            diagnostic.last_completed_sequence == self@.plane.poller.last_recv,
    {
        self.poller.diagnostic(OperationType::Recv, &self.pool)
    }

    /// The work requests whose handles the provider can free.
    pub fn take_retired(&mut self) -> (retired: Vec<u64>)
        requires
            old(self).wf(),
        ensures
            final(self).wf(),
            retired@ == old(self)@.plane.poller.retired,
            final(self)@ == (ConnectionView {
                plane: PlaneView {
                    poller: completion::PollerView {
                        retired: Seq::empty(),
                        ..old(self)@.plane.poller
                    },
                    ..old(self)@.plane
                },
                ..old(self)@
            }),
    {
        let ghost before = self@.plane;
        let retired = self.poller.take_retired();
        proof {
            before.lemma_counters(self.poller@);
        }
        retired
    }
}

} // verus!
