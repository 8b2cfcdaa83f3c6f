//! Jetty descriptors, sizing, and the life of a local Jetty.

use vstd::prelude::*;

use crate::bytes;
use crate::bytes::{copy_range, push_bytes, push_u16, push_u32, read_u16, read_u32};
use crate::error::{protocol, Error, ErrorView, Result};
use crate::message::frame;
use crate::provider::{map_ffi_error, FfiError};
use crate::text;
use crate::text::with_number;

verus! {

/// The version of [`JettyDescriptor`].
pub const JETTY_DESCRIPTOR_VERSION: u16 = 1;

/// The longest opaque part of a descriptor.
pub const MAX_JETTY_DESCRIPTOR_LEN: usize = 65536;

/// Stable wire form of the provider's opaque remote-Jetty bytes.
#[derive(Clone, Debug, Eq, PartialEq)]
pub struct JettyDescriptor {
    pub version: u16,
    pub transport_type: u32,
    pub eid_index: u32,
    pub jetty_id: u32,
    pub opaque_len: u32,
    pub opaque_data: Vec<u8>,
}

/// A [`JettyDescriptor`] with its opaque part as a sequence.
#[verifier::ext_equal]
pub struct DescriptorView {
    pub version: u16,
    pub transport_type: u32,
    pub eid_index: u32,
    pub jetty_id: u32,
    pub opaque_len: u32,
    pub opaque_data: Seq<u8>,
}

impl View for JettyDescriptor {
    type V = DescriptorView;

    open spec fn view(&self) -> DescriptorView {
        DescriptorView {
            version: self.version,
            transport_type: self.transport_type,
            eid_index: self.eid_index,
            jetty_id: self.jetty_id,
            opaque_len: self.opaque_len,
            opaque_data: self.opaque_data@,
        }
    }
}

impl DescriptorView {
    /// The error that the descriptor is refused with, if it is refused.
    pub open spec fn error(self) -> Option<ErrorView> {
        if self.version != JETTY_DESCRIPTOR_VERSION {
            Some(
                ErrorView::Protocol(
                    "unsupported Jetty descriptor version "@ + text::decimal(self.version as nat)
                        + ""@,
                ),
            )
        } else if self.opaque_len == 0 || self.opaque_len != self.opaque_data.len() {
            Some(ErrorView::Protocol("descriptor opaque_len does not match opaque_data"@))
        } else if self.opaque_len > MAX_JETTY_DESCRIPTOR_LEN {
            Some(
                ErrorView::Protocol(
                    "descriptor length "@ + text::decimal(self.opaque_len as nat)
                        + " exceeds 65536"@,
                ),
            )
        } else {
            None
        }
    }

    /// The descriptor's bytes.
    pub open spec fn wire(self) -> Seq<u8> {
        bytes::be(self.version as nat, 2) + bytes::be(self.transport_type as nat, 4) + bytes::be(
            self.eid_index as nat,
            4,
        ) + bytes::be(self.jetty_id as nat, 4) + bytes::be(self.opaque_len as nat, 4)
            + self.opaque_data
    }

    /// The descriptor that bytes spell, or the error that they are refused with.
    pub open spec fn parse(input: Seq<u8>) -> core::result::Result<Self, ErrorView> {
        let descriptor = DescriptorView {
            version: frame::field(input, 0, 2) as u16,
            transport_type: frame::field(input, 2, 4) as u32,
            eid_index: frame::field(input, 6, 4) as u32,
            jetty_id: frame::field(input, 10, 4) as u32,
            opaque_len: frame::field(input, 14, 4) as u32,
            opaque_data: input.skip(18),
        };
        if input.len() < 18 {
            Err(ErrorView::Protocol("truncated Jetty descriptor"@))
        } else {
            match descriptor.error() {
                Some(error) => Err(error),
                None => Ok(descriptor),
            }
        }
    }
}

/// What the provider says of a Jetty.
#[derive(Clone, Debug, Eq, PartialEq)]
pub struct JettyDescriptorData {
    pub transport_type: u32,
    pub eid_index: u32,
    pub jetty_id: u32,
    pub opaque_data: Vec<u8>,
}

impl JettyDescriptorData {
    /// Whether these are the parts of a descriptor that the provider takes.
    pub open spec fn names(self, descriptor: DescriptorView) -> bool {
        &&& self.transport_type == descriptor.transport_type
        &&& self.eid_index == descriptor.eid_index
        &&& self.jetty_id == descriptor.jetty_id
        &&& self.opaque_data@ == descriptor.opaque_data
    }

    /// The descriptor of these parts, or why there is none.
    pub open spec fn described(self) -> core::result::Result<DescriptorView, ErrorView> {
        let descriptor = DescriptorView {
            version: JETTY_DESCRIPTOR_VERSION,
            transport_type: self.transport_type,
            eid_index: self.eid_index,
            jetty_id: self.jetty_id,
            opaque_len: self.opaque_data@.len() as u32,
            opaque_data: self.opaque_data@,
        };
        if self.opaque_data@.len() > u32::MAX {
            Err(ErrorView::Protocol("native descriptor exceeds u32"@))
        } else {
            match descriptor.error() {
                Some(error) => Err(error),
                None => Ok(descriptor),
            }
        }
    }
}

impl JettyDescriptor {
    /// Whether the descriptor can be exchanged.
    pub fn validate(&self) -> (valid: Result<()>)
        ensures
            match valid {
                Ok(()) => self@.error() is None,
                Err(error) => self@.error() == Some(error@),
            },
    {
        if self.version != JETTY_DESCRIPTOR_VERSION {
            return Err(
                Error::Protocol(
                    with_number("unsupported Jetty descriptor version ", self.version as u64, ""),
                ),
            );
        }
        let declared: usize = self.opaque_len as usize;
        if declared == 0 || declared != self.opaque_data.len() {
            return Err(protocol("descriptor opaque_len does not match opaque_data"));
        }
        if declared > MAX_JETTY_DESCRIPTOR_LEN {
            return Err(
                Error::Protocol(
                    with_number("descriptor length ", declared as u64, " exceeds 65536"),
                ),
            );
        }
        Ok(())
    }

    /// The descriptor's bytes.
    pub fn serialize(&self) -> (serialized: Result<Vec<u8>>)
        ensures
            match serialized {
                Ok(out) => self@.error() is None && out@ == self@.wire(),
                Err(error) => self@.error() == Some(error@),
            },
    {
        match self.validate() {
            Ok(()) => {},
            Err(error) => {
                return Err(error);
            },
        }
        let mut out: Vec<u8> = Vec::new();
        push_u16(&mut out, self.version);
        push_u32(&mut out, self.transport_type);
        push_u32(&mut out, self.eid_index);
        push_u32(&mut out, self.jetty_id);
        push_u32(&mut out, self.opaque_len);
        push_bytes(&mut out, self.opaque_data.as_slice());
        assert(out@ =~= self@.wire());
        Ok(out)
    }

    /// The descriptor that bytes spell.
    pub fn deserialize(input: &[u8]) -> (parsed: Result<Self>)
        ensures
            match parsed {
                Ok(descriptor) => DescriptorView::parse(input@) == Ok::<DescriptorView, ErrorView>(
                    descriptor@,
                ),
                Err(error) => DescriptorView::parse(input@) == Err::<DescriptorView, ErrorView>(
                    error@,
                ),
            },
    {
        if input.len() < 18 {
            return Err(protocol("truncated Jetty descriptor"));
        }
        let opaque_data = copy_range(input, 18, input.len());
        assert(opaque_data@ =~= input@.skip(18));
        let descriptor = JettyDescriptor {
            version: read_u16(input, 0),
            transport_type: read_u32(input, 2),
            eid_index: read_u32(input, 6),
            jetty_id: read_u32(input, 10),
            opaque_len: read_u32(input, 14),
            opaque_data,
        };
        match descriptor.validate() {
            Ok(()) => Ok(descriptor),
            Err(error) => Err(error),
        }
    }

    /// The descriptor of what the provider says of a Jetty.
    pub fn from_ffi(raw: JettyDescriptorData) -> (made: Result<Self>)
        ensures
            match made {
                Ok(descriptor) => raw.described() == Ok::<DescriptorView, ErrorView>(descriptor@),
                Err(error) => raw.described() == Err::<DescriptorView, ErrorView>(error@),
            },
    {
        if raw.opaque_data.len() as u64 > 0xffff_ffff {
            return Err(protocol("native descriptor exceeds u32"));
        }
        let descriptor = JettyDescriptor {
            version: JETTY_DESCRIPTOR_VERSION,
            transport_type: raw.transport_type,
            eid_index: raw.eid_index,
            jetty_id: raw.jetty_id,
            opaque_len: raw.opaque_data.len() as u32,
            opaque_data: raw.opaque_data,
        };
        match descriptor.validate() {
            Ok(()) => Ok(descriptor),
            Err(error) => Err(error),
        }
    }

    /// What the provider takes to import the described Jetty.
    pub fn to_ffi(&self) -> (made: Result<JettyDescriptorData>)
        ensures
            match made {
                Ok(raw) => {
                    &&& self@.error() is None
                    &&& raw.transport_type == self.transport_type
                    &&& raw.eid_index == self.eid_index
                    &&& raw.jetty_id == self.jetty_id
                    &&& raw.opaque_data@ == self.opaque_data@
                },
                Err(error) => self@.error() == Some(error@),
            },
    {
        match self.validate() {
            Ok(()) => {},
            Err(error) => {
                return Err(error);
            },
        }
        let opaque_data = copy_range(self.opaque_data.as_slice(), 0, self.opaque_data.len());
        assert(opaque_data@ =~= self.opaque_data@);
        Ok(
            JettyDescriptorData {
                transport_type: self.transport_type,
                eid_index: self.eid_index,
                jetty_id: self.jetty_id,
                opaque_data,
            },
        )
    }
}

/// Reading the bytes of a valid descriptor gives that descriptor.
pub proof fn descriptor_deserialize_undoes_serialize(descriptor: DescriptorView)
    requires
        descriptor.error() is None,
    ensures
        DescriptorView::parse(descriptor.wire()) == Ok::<DescriptorView, ErrorView>(descriptor),
{
    let input = descriptor.wire();
    bytes::lemma_be_bounds();
    bytes::lemma_be(descriptor.version as nat, 2);
    bytes::lemma_be(descriptor.transport_type as nat, 4);
    bytes::lemma_be(descriptor.eid_index as nat, 4);
    bytes::lemma_be(descriptor.jetty_id as nat, 4);
    bytes::lemma_be(descriptor.opaque_len as nat, 4);
    assert(input.subrange(0, 2) =~= bytes::be(descriptor.version as nat, 2));
    assert(input.subrange(2, 6) =~= bytes::be(descriptor.transport_type as nat, 4));
    assert(input.subrange(6, 10) =~= bytes::be(descriptor.eid_index as nat, 4));
    assert(input.subrange(10, 14) =~= bytes::be(descriptor.jetty_id as nat, 4));
    assert(input.subrange(14, 18) =~= bytes::be(descriptor.opaque_len as nat, 4));
    assert(input.skip(18) =~= descriptor.opaque_data);
}

/// Bytes that spell a descriptor are the bytes of that descriptor.
pub proof fn descriptor_serialize_undoes_deserialize(input: Seq<u8>)
    requires
        DescriptorView::parse(input) is Ok,
    ensures
        DescriptorView::parse(input)->Ok_0.error() is None,
        DescriptorView::parse(input)->Ok_0.wire() == input,
{
    bytes::lemma_be_bounds();
    bytes::lemma_be_of_value(input.subrange(0, 2));
    bytes::lemma_be_of_value(input.subrange(2, 6));
    bytes::lemma_be_of_value(input.subrange(6, 10));
    bytes::lemma_be_of_value(input.subrange(10, 14));
    bytes::lemma_be_of_value(input.subrange(14, 18));
    assert(input =~= input.subrange(0, 2) + input.subrange(2, 6) + input.subrange(6, 10)
        + input.subrange(10, 14) + input.subrange(14, 18) + input.skip(18));
}

/// Queue sizes and the statically provisioned import token of a Jetty.
pub struct JettyConfig {
    pub send_depth: u32,
    pub recv_depth: u32,
    pub max_send_sge: u32,
    pub max_recv_sge: u32,
    pub token: u32,
}

impl Default for JettyConfig {
    fn default() -> (config: Self)
        ensures
            config == (JettyConfig {
                send_depth: 128,
                recv_depth: 512,
                max_send_sge: 1,
                max_recv_sge: 1,
                token: 0,
            }),
    {
        JettyConfig {
            send_depth: 128,
            recv_depth: 512,
            max_send_sge: 1,
            max_recv_sge: 1,
            token: 0,
        }
    }
}

impl JettyConfig {
    /// The same sizes with another import token.
    pub fn with_token(self, token: u32) -> (config: Self)
        ensures
            config == (JettyConfig { token, ..self }),
    {
        JettyConfig { token, ..self }
    }

    /// The import token.
    pub fn token(&self) -> (token: u32)
        ensures
            token == self.token,
    {
        self.token
    }
}

/// A local Jetty and its optional imported and bound remote Jetty.
pub struct UrmaJetty {
    token: u32,
    imported: bool,
    bound: bool,
}

/// What a Jetty holds.
pub struct JettyView {
    pub token: u32,
    pub imported: bool,
    pub bound: bool,
}

impl View for UrmaJetty {
    type V = JettyView;

    closed spec fn view(&self) -> JettyView {
        JettyView { token: self.token, imported: self.imported, bound: self.bound }
    }
}

impl JettyView {
    /// The error that importing a described Jetty is refused with, if it is refused.
    pub open spec fn import_error(self, descriptor: DescriptorView) -> Option<ErrorView> {
        if self.imported {
            Some(ErrorView::Protocol("a remote Jetty is already imported"@))
        } else {
            descriptor.error()
        }
    }
}

/// The failures with the text of one more, where there is one.
pub open spec fn noted(
    failures: Seq<Seq<char>>,
    operation: Seq<char>,
    outcome: core::result::Result<(), FfiError>,
) -> Seq<Seq<char>> {
    match outcome {
        Ok(()) => failures,
        Err(failure) => failures.push(failure.mapped(operation).text()),
    }
}

/// Notes the text of a failed native operation.
pub(crate) fn note_failure(
    failures: &mut Vec<String>,
    operation: &'static str,
    outcome: core::result::Result<(), FfiError>,
)
    ensures
        text::views(final(failures)@) == noted(text::views(old(failures)@), operation@, outcome),
{
    match outcome {
        Ok(()) => {},
        Err(failure) => {
            let ghost before = failures@;
            failures.push(map_ffi_error(operation, failure).to_string());
            assert(text::views(failures@) =~= text::views(before).push(
                failure.mapped(operation@).text(),
            ));
        },
    }
}

impl UrmaJetty {
    /// A Jetty with no remote Jetty, for what creating it natively gave.
    pub fn create(config: &JettyConfig, created: core::result::Result<(), FfiError>) -> (jetty:
        Result<Self>)
        ensures
            match created {
                Ok(()) => {
                    &&& jetty matches Ok(jetty)
                    &&& jetty@ == (JettyView {
                        token: config.token,
                        imported: false,
                        bound: false,
                    })
                },
                Err(failure) => {
                    &&& jetty matches Err(error)
                    &&& error@ == failure.mapped("create_jetty"@)
                },
            },
    {
        match created {
            Ok(()) => Ok(UrmaJetty { token: config.token(), imported: false, bound: false }),
            Err(failure) => Err(map_ffi_error("create_jetty", failure)),
        }
    }

    /// The import token.
    pub fn token(&self) -> (token: u32)
        ensures
            token == self@.token,
    {
        self.token
    }

    /// What is to be imported natively, for a remote Jetty's descriptor.
    pub fn prepare_import(&self, descriptor: &JettyDescriptor) -> (prepared: Result<
        JettyDescriptorData,
    >)
        ensures
            match prepared {
                Ok(raw) => self@.import_error(descriptor@) is None && raw.names(descriptor@),
                Err(error) => self@.import_error(descriptor@) == Some(error@),
            },
    {
        if self.imported {
            return Err(protocol("a remote Jetty is already imported"));
        }
        descriptor.to_ffi()
    }

    /// Takes in what importing natively gave.
    pub fn import(&mut self, outcome: core::result::Result<(), FfiError>) -> (imported: Result<()>)
        ensures
            match outcome {
                Ok(()) => {
                    &&& imported is Ok
                    &&& final(self)@ == (JettyView { imported: true, ..old(self)@ })
                },
                Err(failure) => {
                    &&& imported matches Err(error)
                    &&& error@ == failure.mapped("import_jetty"@)
                    &&& final(self)@ == old(self)@
                },
            },
    {
        match outcome {
            Ok(()) => {
                self.imported = true;
                Ok(())
            },
            Err(failure) => Err(map_ffi_error("import_jetty", failure)),
        }
    }

    /// Whether the imported Jetty can be bound.
    pub fn require_imported(&self) -> (allowed: Result<()>)
        ensures
            match allowed {
                Ok(()) => self@.imported,
                Err(error) => {
                    &&& !self@.imported
                    &&& error@ == ErrorView::Protocol("bind requires an imported Jetty"@)
                },
            },
    {
        if !self.imported {
            return Err(protocol("bind requires an imported Jetty"));
        }
        Ok(())
    }

    /// Takes in what binding natively gave.
    pub fn bind(&mut self, outcome: core::result::Result<(), FfiError>) -> (bound: Result<()>)
        requires
            old(self)@.imported,
        ensures
            match outcome {
                Ok(()) => {
                    &&& bound is Ok
                    &&& final(self)@ == (JettyView { bound: true, ..old(self)@ })
                },
                Err(failure) => {
                    &&& bound matches Err(error)
                    &&& error@ == failure.mapped("bind_jetty"@)
                    &&& final(self)@ == old(self)@
                },
            },
    {
        match outcome {
            Ok(()) => {
                self.bound = true;
                Ok(())
            },
            Err(failure) => Err(map_ffi_error("bind_jetty", failure)),
        }
    }

    /// Whether closing has to unbind first.
    pub fn needs_unbind(&self) -> (needed: bool)
        ensures
            needed == self@.bound,
    {
        self.bound
    }

    /// Takes in what unbinding gave.
    pub fn unbind(&mut self, outcome: core::result::Result<(), FfiError>, failures: &mut Vec<String>)
        ensures
            final(self)@ == (JettyView { bound: old(self)@.bound && outcome is Err, ..old(self)@ }),
            text::views(final(failures)@) == noted(
                text::views(old(failures)@),
                "unbind_jetty"@,
                outcome,
            ),
    {
        if outcome.is_ok() {
            self.bound = false;
        }
        note_failure(failures, "unbind_jetty", outcome);
    }

    /// Whether closing has to unimport: not while the remote Jetty is still bound.
    pub fn needs_unimport(&self) -> (needed: bool)
        ensures
            needed == (self@.imported && !self@.bound),
    {
        self.imported && !self.bound
    }

    /// Takes in what unimporting gave.
    pub fn unimport(
        &mut self,
        outcome: core::result::Result<(), FfiError>,
        failures: &mut Vec<String>,
    )
        ensures
            final(self)@ == (JettyView {
                imported: old(self)@.imported && outcome is Err,
                ..old(self)@
            }),
            text::views(final(failures)@) == noted(
                text::views(old(failures)@),
                "unimport_jetty"@,
                outcome,
            ),
    {
        if outcome.is_ok() {
            self.imported = false;
        }
        note_failure(failures, "unimport_jetty", outcome);
    }

    /// Whether closing may delete the local Jetty: only once nothing remote is attached.
    pub fn needs_delete(&self) -> (needed: bool)
        ensures
            needed == (!self@.bound && !self@.imported),
    {
        !self.bound && !self.imported
    }

    /// Takes in what deleting the local Jetty gave.
    pub fn delete(&mut self, outcome: core::result::Result<(), FfiError>, failures: &mut Vec<String>)
        ensures
            final(self)@ == old(self)@,
            text::views(final(failures)@) == noted(
                text::views(old(failures)@),
                "delete_jetty"@,
                outcome,
            ),
    {
        note_failure(failures, "delete_jetty", outcome);
    }

    /// What closing gives, for the failures noted on the way.
    pub fn close(failures: Vec<String>) -> (closed: Result<()>)
        ensures
            match closed {
                Ok(()) => failures@.len() == 0,
                Err(error) => {
                    &&& failures@.len() > 0
                    &&& error@ == (ErrorView::Shutdown { failures: text::views(failures@) })
                },
            },
    {
        if failures.len() == 0 {
            Ok(())
        } else {
            Err(Error::Shutdown { failures })
        }
    }
}

} // verus!
