//! CRC32 digests: hashing, combination of separately hashed ranges, and the
//! `crc32:<decimal>` text form.

use vstd::prelude::*;

use crate::error::{protocol, Error, ErrorView, Result};
use crate::text;
use crate::text::{holds_only_digits, parse_decimal_u32, push_decimal, strip_prefix};

verus! {

/// What a textual CRC32 digest starts with.
pub const DRAGONFLY_CRC32_PREFIX: &'static str = "crc32:";

/// A running CRC32 (IEEE) computation of the `crc32fast` crate.
#[verifier::external_type_specification]
#[verifier::external_body]
pub struct ExCrc32FastHasher(crc32fast::Hasher);

/// The bytes that a hasher stands for, in order.
pub uninterp spec fn hashed_bytes(hasher: crc32fast::Hasher) -> Seq<u8>;

/// The CRC32 (IEEE) checksum of a byte sequence.
pub uninterp spec fn crc32(bytes: Seq<u8>) -> u32;

/// `crc32fast::Hasher::new` gives a hasher that stands for no bytes.
pub assume_specification[ crc32fast::Hasher::new ]() -> (hasher: crc32fast::Hasher)
    ensures
        hashed_bytes(hasher) == Seq::<u8>::empty(),
;

/// `crc32fast::Hasher::update` appends the given bytes. The hasher counts its bytes in a `u64`.
pub assume_specification[ crc32fast::Hasher::update ](hasher: &mut crc32fast::Hasher, buf: &[u8])
    requires
        hashed_bytes(*old(hasher)).len() + buf@.len() <= u64::MAX,
    ensures
        hashed_bytes(*final(hasher)) == hashed_bytes(*old(hasher)) + buf@,
;

/// `crc32fast::Hasher::combine` appends the bytes that the other hasher stands for.
pub assume_specification[ crc32fast::Hasher::combine ](
    hasher: &mut crc32fast::Hasher,
    other: &crc32fast::Hasher,
)
    requires
        hashed_bytes(*old(hasher)).len() + hashed_bytes(*other).len() <= u64::MAX,
    ensures
        hashed_bytes(*final(hasher)) == hashed_bytes(*old(hasher)) + hashed_bytes(*other),
;

/// `crc32fast::Hasher::finalize` gives the checksum of the bytes that the hasher stands for.
pub assume_specification[ crc32fast::Hasher::finalize ](hasher: crc32fast::Hasher) -> (checksum:
    u32)
    ensures
        checksum == crc32(hashed_bytes(hasher)),
;

/// Cloning a `crc32fast::Hasher` keeps the bytes that it stands for.
pub assume_specification[ <crc32fast::Hasher as Clone>::clone ](hasher: &crc32fast::Hasher) -> (copy:
    crc32fast::Hasher)
    ensures
        hashed_bytes(copy) == hashed_bytes(*hasher),
;

/// A CRC32 digest under construction.
#[derive(Debug)]
pub struct Crc32Hasher(crc32fast::Hasher);

impl View for Crc32Hasher {
    type V = Seq<u8>;

    /// The bytes hashed so far.
    closed spec fn view(&self) -> Seq<u8> {
        hashed_bytes(self.0)
    }
}

impl Clone for Crc32Hasher {
    fn clone(&self) -> (copy: Self)
        ensures
            copy@ == self@,
    {
        Crc32Hasher(self.0.clone())
    }
}

impl Default for Crc32Hasher {
    fn default() -> (hasher: Self)
        ensures
            hasher@ == Seq::<u8>::empty(),
    {
        Self::new()
    }
}

impl Crc32Hasher {
    /// A hasher of no bytes.
    pub fn new() -> (hasher: Self)
        ensures
            hasher@ == Seq::<u8>::empty(),
    {
        Crc32Hasher(crc32fast::Hasher::new())
    }

    /// Appends `bytes`.
    pub fn update(&mut self, bytes: &[u8])
        requires
            old(self)@.len() + bytes@.len() <= u64::MAX,
        ensures
            final(self)@ == old(self)@ + bytes@,
    {
        self.0.update(bytes);
    }

    /// Appends a separately hashed byte range to this digest, so that
    /// independent windows can be hashed in parallel and combined in wire
    /// order without rescanning their payloads.
    pub fn combine(&mut self, other: &Self)
        requires
            old(self)@.len() + other@.len() <= u64::MAX,
        ensures
            final(self)@ == old(self)@ + other@,
    {
        self.0.combine(&other.0);
    }

    /// The checksum of the bytes hashed.
    pub fn finalize(self) -> (checksum: u32)
        ensures
            checksum == crc32(self@),
    {
        self.0.finalize()
    }
}

/// The checksum of `bytes`.
pub fn crc32_bytes(bytes: &[u8]) -> (checksum: u32)
    ensures
        checksum == crc32(bytes@),
{
    let mut hasher = Crc32Hasher::new();
    assert(bytes.len() <= u64::MAX);
    hasher.update(bytes);
    assert(Seq::<u8>::empty() + bytes@ =~= bytes@);
    hasher.finalize()
}

/// What one read of an input gave.
pub enum ReadOutcome<'a> {
    /// The bytes read; none at the end of the input.
    Bytes(&'a [u8]),
    /// The read was interrupted before it moved any byte.
    Interrupted,
    /// The read failed, with the system's message.
    Failed(String),
}

/// The checksum and the length of an input that is read piece by piece.
pub struct Crc32Reader {
    hasher: Crc32Hasher,
    length: u64,
}

impl View for Crc32Reader {
    type V = Seq<u8>;

    /// The bytes read so far.
    closed spec fn view(&self) -> Seq<u8> {
        self.hasher@
    }
}

impl Crc32Reader {
    /// Whether the length counts the bytes read.
    pub closed spec fn wf(self) -> bool {
        self.length == self.hasher@.len()
    }

    /// A reader that has read nothing.
    pub fn new() -> (reader: Self)
        ensures
            reader.wf(),
            reader@ == Seq::<u8>::empty(),
    {
        Crc32Reader { hasher: Crc32Hasher::new(), length: 0 }
    }

    /// Takes in what one read gave and says whether the input has ended.
    pub fn observe(&mut self, outcome: ReadOutcome<'_>) -> (ended: Result<bool>)
        requires
            old(self).wf(),
        ensures
            final(self).wf(),
            match outcome {
                ReadOutcome::Bytes(bytes) => {
                    if bytes@.len() == 0 {
                        ended == Ok::<bool, Error>(true) && final(self)@ == old(self)@
                    } else if old(self)@.len() + bytes@.len() > u64::MAX {
                        &&& ended matches Err(error)
                        &&& error@ == ErrorView::Protocol("CRC32 input length overflow"@)
                        &&& final(self)@ == old(self)@
                    } else {
                        ended == Ok::<bool, Error>(false) && final(self)@ == old(self)@ + bytes@
                    }
                },
                ReadOutcome::Interrupted => {
                    ended == Ok::<bool, Error>(false) && final(self)@ == old(self)@
                },
                ReadOutcome::Failed(message) => {
                    &&& ended matches Err(error)
                    &&& error@ == (ErrorView::Io {
                        operation: "read input for CRC32"@,
                        message: message@,
                    })
                    &&& final(self)@ == old(self)@
                },
            },
    {
        match outcome {
            ReadOutcome::Bytes(bytes) => {
                if bytes.len() == 0 {
                    return Ok(true);
                }
                match self.length.checked_add(bytes.len() as u64) {
                    Some(length) => {
                        self.hasher.update(bytes);
                        self.length = length;
                        Ok(false)
                    },
                    None => Err(protocol("CRC32 input length overflow")),
                }
            },
            ReadOutcome::Interrupted => Ok(false),
            ReadOutcome::Failed(message) => Err(
                Error::Io { operation: "read input for CRC32", message },
            ),
        }
    }

    /// The checksum and the number of the bytes read.
    pub fn finish(self) -> (summary: (u32, u64))
        requires
            self.wf(),
        ensures
            summary.0 == crc32(self@),
            summary.1 == self@.len(),
    {
        (self.hasher.finalize(), self.length)
    }
}

/// The checksum and the length of an input that is all there.
pub fn crc32_reader(input: &[u8]) -> (summary: Result<(u32, u64)>)
    ensures
        summary matches Ok(summary) && summary.0 == crc32(input@) && summary.1 == input@.len(),
{
    let mut reader = Crc32Reader::new();
    if input.len() > 0 {
        match reader.observe(ReadOutcome::Bytes(input)) {
            Ok(_) => {},
            Err(error) => {
                return Err(error);
            },
        }
    }
    assert(reader@ =~= input@);
    Ok(reader.finish())
}

/// The text of a CRC32 digest.
pub open spec fn crc32_digest(value: u32) -> Seq<char> {
    "crc32:"@ + text::decimal(value as nat)
}

/// Whether `text` is a decimal number that fits a `u32`, written without leading zeros; otherwise
/// the error that it is refused with.
pub open spec fn crc32_value_error(text: Seq<char>) -> Option<ErrorView> {
    if !text::all_decimal_digits(text) {
        Some(ErrorView::Protocol("CRC32 digest value must be decimal u32"@))
    } else if text::decimal_value(text) > u32::MAX {
        Some(ErrorView::Protocol("CRC32 digest value exceeds u32"@))
    } else if text != text::decimal(text::decimal_value(text)) {
        Some(ErrorView::Protocol("CRC32 digest value is not canonical decimal"@))
    } else {
        None
    }
}

/// The error that a digest text is refused with, if it is refused.
pub open spec fn crc32_digest_error(input: Seq<char>) -> Option<ErrorView> {
    let prefix = "crc32:"@;
    if !prefix.is_prefix_of(input) {
        Some(ErrorView::Protocol("CRC32 digest must start with crc32:"@))
    } else {
        let value = input.skip(prefix.len() as int);
        if value.len() == 0 {
            Some(ErrorView::Protocol("CRC32 digest value must be decimal u32"@))
        } else {
            crc32_value_error(value)
        }
    }
}

/// The value of a canonical decimal `u32`.
pub(crate) fn parse_crc32_value(text: &str) -> (parsed: Result<u32>)
    ensures
        match parsed {
            Ok(value) => crc32_value_error(text@) is None && text@ == text::decimal(value as nat),
            Err(error) => crc32_value_error(text@) == Some(error@),
        },
{
    if !holds_only_digits(text) {
        return Err(protocol("CRC32 digest value must be decimal u32"));
    }
    let value: u32 = match parse_decimal_u32(text) {
        Some(value) => value,
        None => {
            return Err(protocol("CRC32 digest value exceeds u32"));
        },
    };
    if text.to_owned() != text::decimal_string(value as u64) {
        return Err(protocol("CRC32 digest value is not canonical decimal"));
    }
    Ok(value)
}

/// The text form of a CRC32 digest.
pub fn format_crc32_digest(value: u32) -> (text: String)
    ensures
        text@ == crc32_digest(value),
{
    let mut text = DRAGONFLY_CRC32_PREFIX.to_owned();
    push_decimal(&mut text, value as u64);
    text
}

/// The value of a CRC32 digest in its canonical text form.
pub fn parse_crc32_digest(input: &str) -> (parsed: Result<u32>)
    ensures
        match parsed {
            Ok(value) => crc32_digest_error(input@) is None && input@ == crc32_digest(value),
            Err(error) => crc32_digest_error(input@) == Some(error@),
        },
{
    match strip_prefix(input, DRAGONFLY_CRC32_PREFIX) {
        Some(encoded) => {
            proof {
                assert(input@.skip("crc32:"@.len() as int) =~= encoded@);
            }
            if encoded.as_str().is_empty() {
                return Err(protocol("CRC32 digest value must be decimal u32"));
            }
            parse_crc32_value(encoded.as_str())
        },
        None => Err(protocol("CRC32 digest must start with crc32:")),
    }
}

/// The decimal text of every `u32` is accepted as a digest value, and stands for that number only.
pub proof fn lemma_crc32_value_accepted(value: u32)
    ensures
        crc32_value_error(text::decimal(value as nat)) is None,
        text::decimal(value as nat).len() > 0,
        text::decimal_value(text::decimal(value as nat)) == value,
{
    text::lemma_decimal_round_trip(value as nat);
}

/// The text form of every digest is accepted, and two digests with one text are equal: with the
/// contracts of [`format_crc32_digest`] and [`parse_crc32_digest`], parsing undoes formatting.
pub proof fn crc32_digest_round_trip(value: u32, other: u32)
    ensures
        crc32_digest_error(crc32_digest(value)) is None,
        crc32_digest(value) == crc32_digest(other) ==> value == other,
{
    let prefix = "crc32:"@;
    lemma_crc32_value_accepted(value);
    lemma_crc32_value_accepted(other);
    assert(crc32_digest(value).skip(prefix.len() as int) =~= text::decimal(value as nat));
    assert(crc32_digest(other).skip(prefix.len() as int) =~= text::decimal(other as nat));
}

/// A text is a digest exactly where it is what some checksum is written as: `crc32:` and its decimal.
pub proof fn crc32_digests_are_accepted_exactly_when(input: Seq<char>)
    ensures
        crc32_digest_error(input) is None <==> exists|value: u32|
            input == #[trigger] crc32_digest(value),
{
    let prefix = "crc32:"@;
    if crc32_digest_error(input) is None {
        let value = text::decimal_value(input.skip(prefix.len() as int)) as u32;
        assert(input =~= prefix + input.skip(prefix.len() as int));
        assert(input == crc32_digest(value));
    }
    if exists|value: u32| input == #[trigger] crc32_digest(value) {
        let value = choose|value: u32| input == #[trigger] crc32_digest(value);
        crc32_digest_round_trip(value, value);
    }
}

/// The bytes of a hasher that started with those of `start` and was updated with each piece.
pub open spec fn updated(start: Seq<u8>, pieces: Seq<Seq<u8>>) -> Seq<u8>
    decreases pieces.len(),
{
    if pieces.len() == 0 {
        start
    } else {
        updated(start, pieces.drop_last()) + pieces.last()
    }
}

/// Hashing a sequence piece by piece gives the checksum of the whole sequence.
pub proof fn crc32_streaming_matches_one_shot(pieces: Seq<Seq<u8>>)
    ensures
        crc32(updated(Seq::empty(), pieces)) == crc32(pieces.flatten()),
{
    lemma_updated(Seq::empty(), pieces);
    assert(Seq::<u8>::empty() + pieces.flatten() =~= pieces.flatten());
}

/// Hashing two runs of pieces apart and combining the second into the first gives the checksum of
/// hashing them one after the other.
pub proof fn crc32_combination_matches_streaming(first: Seq<Seq<u8>>, second: Seq<Seq<u8>>)
    ensures
        crc32(updated(Seq::empty(), first) + updated(Seq::empty(), second)) == crc32(
            updated(Seq::empty(), first + second),
        ),
{
    lemma_updated(updated(Seq::empty(), first), second);
    lemma_updated(Seq::empty(), second);
    assert(Seq::<u8>::empty() + second.flatten() =~= second.flatten());
    lemma_updated_append(Seq::empty(), first, second);
}

proof fn lemma_updated(start: Seq<u8>, pieces: Seq<Seq<u8>>)
    ensures
        updated(start, pieces) == start + pieces.flatten(),
    decreases pieces.len(),
{
    pieces.lemma_flatten_and_flatten_alt_are_equivalent();
    if pieces.len() == 0 {
        assert(start + pieces.flatten() =~= start);
    } else {
        lemma_updated(start, pieces.drop_last());
        pieces.drop_last().lemma_flatten_and_flatten_alt_are_equivalent();
        assert(start + pieces.flatten_alt() =~= start + pieces.drop_last().flatten_alt()
            + pieces.last());
    }
}

proof fn lemma_updated_append(start: Seq<u8>, first: Seq<Seq<u8>>, second: Seq<Seq<u8>>)
    ensures
        updated(start, first + second) == updated(updated(start, first), second),
    decreases second.len(),
{
    if second.len() == 0 {
        assert(first + second =~= first);
    } else {
        lemma_updated_append(start, first, second.drop_last());
        assert((first + second).drop_last() =~= first + second.drop_last());
    }
}

} // verus!
