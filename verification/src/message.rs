//! The two data-plane message formats: version 2 ([`Message`]) and the
//! integration format, version 3 ([`IntegrationMessageV3`]).

use vstd::prelude::*;

pub mod data;
pub mod descriptor;
pub mod frame;
pub mod integration;
pub mod laws;

pub use data::{Message, MessageBody, MessageBodyView, MessageType, MessageView};
pub use descriptor::{DigestAlgorithm, DigestDescriptor, DigestView};
pub use integration::{
    IntegrationBodyView, IntegrationMessageBodyV3, IntegrationMessageTypeV3, IntegrationMessageV3,
    IntegrationView,
};

verus! {

/// What every data-plane frame starts with.
pub const DATA_MAGIC: u32 = 0x5552_4d44;

/// The version of [`Message`] frames.
pub const DATA_VERSION: u16 = 2;

/// The number of bytes before a frame's payload.
pub const DATA_HEADER_LEN: usize = 24;

/// The longest payload of a [`Message`] frame.
pub const MAX_DATA_PAYLOAD_LEN: usize = 65512;

/// The number of bytes in a SHA-256 digest.
pub const SHA256_DIGEST_LEN: usize = 32;

/// The version of [`IntegrationMessageV3`] frames.
pub const INTEGRATION_VERSION: u16 = 3;

/// The longest digest value of a descriptor.
pub const MAX_DIGEST_VALUE_LEN: usize = 64;

} // verus!
