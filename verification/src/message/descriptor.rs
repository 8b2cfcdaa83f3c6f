//! Digest descriptors: an algorithm and a value in its canonical text form.

use vstd::prelude::*;

use crate::digest;
use crate::digest::parse_crc32_value;
use crate::error::{protocol, Error, ErrorView, Result};
use crate::text;
use crate::text::{decimal_string, holds_only_lower_hex, with_number, Text};

verus! {

/// A digest algorithm.
#[derive(Clone, Copy, Debug, Eq, PartialEq, Structural)]
pub enum DigestAlgorithm {
    Crc32,
    Sha256,
}

impl DigestAlgorithm {
    pub const CRC32_WIRE_VALUE: u16 = 1;

    pub const SHA256_WIRE_VALUE: u16 = 2;

    /// The number that stands for the algorithm on the wire.
    pub open spec fn wire(self) -> u16 {
        match self {
            DigestAlgorithm::Crc32 => 1,
            DigestAlgorithm::Sha256 => 2,
        }
    }

    /// The algorithm's name.
    pub open spec fn name(self) -> Seq<char> {
        match self {
            DigestAlgorithm::Crc32 => "crc32"@,
            DigestAlgorithm::Sha256 => "sha256"@,
        }
    }

    /// The algorithm that a wire number stands for.
    pub open spec fn of_wire(value: nat) -> core::result::Result<Self, ErrorView> {
        if value == 1 {
            Ok(DigestAlgorithm::Crc32)
        } else if value == 2 {
            Ok(DigestAlgorithm::Sha256)
        } else {
            Err(ErrorView::Protocol("unknown digest algorithm "@ + text::decimal(value) + ""@))
        }
    }

    pub(crate) fn wire_value(self) -> (value: u16)
        ensures
            value == self.wire(),
    {
        match self {
            DigestAlgorithm::Crc32 => Self::CRC32_WIRE_VALUE,
            DigestAlgorithm::Sha256 => Self::SHA256_WIRE_VALUE,
        }
    }

    pub(crate) fn from_wire(value: u16) -> (algorithm: Result<Self>)
        ensures
            match algorithm {
                Ok(algorithm) => Self::of_wire(value as nat) == Ok::<Self, ErrorView>(algorithm),
                Err(error) => Self::of_wire(value as nat) == Err::<Self, ErrorView>(error@),
            },
    {
        if value == Self::CRC32_WIRE_VALUE {
            Ok(DigestAlgorithm::Crc32)
        } else if value == Self::SHA256_WIRE_VALUE {
            Ok(DigestAlgorithm::Sha256)
        } else {
            Err(Error::Protocol(with_number("unknown digest algorithm ", value as u64, "")))
        }
    }

    pub(crate) fn label(self) -> (label: &'static str)
        ensures
            label@ == self.name(),
    {
        match self {
            DigestAlgorithm::Crc32 => "crc32",
            DigestAlgorithm::Sha256 => "sha256",
        }
    }
}

/// A digest of a piece: the algorithm and the value's text.
#[derive(Clone, Debug, Eq, PartialEq)]
pub struct DigestDescriptor {
    pub algorithm: DigestAlgorithm,
    pub value: String,
}

/// A [`DigestDescriptor`] with its value as characters.
#[verifier::ext_equal]
pub struct DigestView {
    pub algorithm: DigestAlgorithm,
    pub value: Seq<char>,
}

impl DigestView {
    /// The error that the descriptor is refused with, if it is not a canonical digest.
    pub open spec fn error(self) -> Option<ErrorView> {
        let length = text::utf8(self.value).len();
        if length == 0 || length > 64 {
            Some(
                ErrorView::Protocol(
                    "digest value length "@ + text::decimal(length) + " is outside 1..=64"@,
                ),
            )
        } else {
            match self.algorithm {
                DigestAlgorithm::Crc32 => digest::crc32_value_error(self.value),
                DigestAlgorithm::Sha256 => {
                    if length != 64 || !text::all_lower_hex_digits(self.value) {
                        Some(
                            ErrorView::Protocol(
                                "SHA-256 digest must be 64 lowercase hexadecimal bytes"@,
                            ),
                        )
                    } else {
                        None
                    }
                },
            }
        }
    }
}

impl View for DigestDescriptor {
    type V = DigestView;

    open spec fn view(&self) -> DigestView {
        DigestView { algorithm: self.algorithm, value: self.value@ }
    }
}

impl DigestDescriptor {
    /// The descriptor of a canonical digest.
    pub fn new<T: Text>(algorithm: DigestAlgorithm, value: T) -> (descriptor: Result<Self>)
        ensures
            match descriptor {
                Ok(descriptor) => {
                    &&& descriptor@ == (DigestView { algorithm, value: value.text() })
                    &&& descriptor@.error() is None
                },
                Err(error) => {
                    (DigestView { algorithm, value: value.text() }).error() == Some(error@)
                },
            },
    {
        let descriptor = DigestDescriptor { algorithm, value: value.into_string() };
        match descriptor.validate() {
            Ok(()) => Ok(descriptor),
            Err(error) => Err(error),
        }
    }

    /// The descriptor of a CRC32 checksum.
    pub fn crc32(value: u32) -> (descriptor: Self)
        ensures
            descriptor@ == (DigestView {
                algorithm: DigestAlgorithm::Crc32,
                value: text::decimal(value as nat),
            }),
    {
        DigestDescriptor { algorithm: DigestAlgorithm::Crc32, value: decimal_string(value as u64) }
    }

    /// `algorithm:value`, for a canonical digest.
    pub fn external_string(&self) -> (external: Result<String>)
        ensures
            match external {
                Ok(external) => {
                    &&& self@.error() is None
                    &&& external@ == self.algorithm.name() + ":"@ + self.value@
                },
                Err(error) => self@.error() == Some(error@),
            },
    {
        match self.validate() {
            Ok(()) => {
                let mut external = self.algorithm.label().to_owned();
                external.append(":");
                external.append(self.value.as_str());
                Ok(external)
            },
            Err(error) => Err(error),
        }
    }

    /// Whether the descriptor is a canonical digest.
    pub fn validate(&self) -> (valid: Result<()>)
        ensures
            match valid {
                Ok(()) => self@.error() is None,
                Err(error) => self@.error() == Some(error@),
            },
    {
        let length: usize = self.value.as_str().as_bytes().len();
        if length == 0 || length > super::MAX_DIGEST_VALUE_LEN {
            return Err(
                Error::Protocol(
                    with_number("digest value length ", length as u64, " is outside 1..=64"),
                ),
            );
        }
        match self.algorithm {
            DigestAlgorithm::Crc32 => match parse_crc32_value(self.value.as_str()) {
                Ok(_) => Ok(()),
                Err(error) => Err(error),
            },
            DigestAlgorithm::Sha256 => {
                if length != 64 || !holds_only_lower_hex(self.value.as_str()) {
                    return Err(protocol("SHA-256 digest must be 64 lowercase hexadecimal bytes"));
                }
                Ok(())
            },
        }
    }
}

/// Every CRC32 checksum has a canonical descriptor.
pub proof fn crc32_descriptors_are_canonical(value: u32)
    ensures
        (DigestView {
            algorithm: DigestAlgorithm::Crc32,
            value: text::decimal(value as nat),
        }).error() is None,
{
    digest::lemma_crc32_value_accepted(value);
    text::lemma_decimal_is_short(value as nat);
}

} // verus!
