//! Binary-to-text codec: encodes arbitrary bytes into the standard
//! text-safe representation, and decodes such text back to the exact
//! original bytes.

use vstd::prelude::*;

use base64::Engine;

verus! {

/// What encoding a byte sequence yields. The encoding is a function of the
/// bytes alone; this crate does not spell its characters out, and claims of
/// it only what the trusted items below state.
pub uninterp spec fn base64_of(bytes: Seq<u8>) -> Seq<char>;

/// The characters of an encoding read as bytes, character by character.
pub open spec fn chars_as_bytes(s: Seq<char>) -> Seq<u8> {
    s.map_values(|c: char| c as u8)
}

/// One decoding failure, mirroring the faults the codec distinguishes.
#[derive(Clone, Copy, Debug, PartialEq, Eq, Structural)]
pub enum CodecError {
    /// A byte outside the alphabet, or misplaced padding, at an offset.
    InvalidByte { offset: usize, byte: u8 },
    /// An input length, measured in symbols, that no encoding produces.
    InvalidLength { length: usize },
    /// A last symbol whose trailing bits are not zero.
    InvalidLastSymbol { offset: usize, byte: u8 },
    /// Padding that is absent or not canonical.
    InvalidPadding,
}

/// Relies on base64's `Engine::encode` with the standard alphabet and
/// canonical padding: the result is a function of the input bytes alone,
/// four characters for every started group of three input bytes.
#[verifier::external_body]
pub fn encode_base64(data: &Vec<u8>) -> (r: String)
    requires
        data@.len() <= usize::MAX as nat / 2,
    ensures
        r@ == base64_of(data@),
        data@.len() % 3 == 0 ==> r@.len() == 4 * (data@.len() / 3),
        data@.len() % 3 != 0 ==> r@.len() == 4 * (data@.len() / 3) + 4,
{
    base64::engine::general_purpose::STANDARD.encode(data)
}

/// Relies on base64's `Engine::decode` with the standard engine, which
/// demands canonical padding and rejects nonzero trailing bits: it succeeds
/// exactly on the canonical encodings, returning the encoded bytes, and
/// otherwise reports which fault it found.
#[verifier::external_body]
pub fn decode_base64(data: &Vec<u8>) -> (r: Result<Vec<u8>, CodecError>)
    ensures
        r is Ok ==> chars_as_bytes(base64_of(r->Ok_0@)) == data@,
        r matches Ok(d) ==> forall|b: Seq<u8>| chars_as_bytes(base64_of(b)) == data@ ==> d@ == b,
        r is Err ==> forall|b: Seq<u8>| chars_as_bytes(base64_of(b)) != data@,
{
    match base64::engine::general_purpose::STANDARD.decode(data) {
        Ok(d) => Ok(d),
        Err(base64::DecodeError::InvalidByte(o, b)) => Err(
            CodecError::InvalidByte { offset: o, byte: b },
        ),
        Err(base64::DecodeError::InvalidLength(l)) => Err(CodecError::InvalidLength { length: l }),
        Err(base64::DecodeError::InvalidLastSymbol(o, b)) => Err(
            CodecError::InvalidLastSymbol { offset: o, byte: b },
        ),
        Err(base64::DecodeError::InvalidPadding) => Err(CodecError::InvalidPadding),
    }
}

} // verus!
