//! Errors of the framing and message layer.
use vstd::prelude::*;

verus! {

/// `std::io::Error` is carried through errors of this library as an opaque value.
#[verifier::external_type_specification]
#[verifier::external_body]
pub struct ExIoError(std::io::Error);

/// Failures while encoding, decoding or reading protocol frames.
#[derive(Debug)]
pub enum ProtocolError {
    InvalidMessageType(u8),
    SerializationError(String),
    DeserializationError(String),
    FrameTooLarge(usize, usize),
    TruncatedFrame { expected: usize, actual: usize },
    UnexpectedEof,
    IoError(std::io::Error),
}

} // verus!
