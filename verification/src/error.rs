//! The ways in which decoding fails.

use vstd::prelude::*;

verus! {

/// Why a frame could not be decoded. After any of these the stream it came
/// from is out of step and good for nothing more.
#[derive(Clone, Copy, Debug, PartialEq, Eq, Structural)]
pub enum Error {
    /// The input ended inside a fixed-width field, a text field, a blob or a body.
    UnexpectedEof,
    /// Bytes were left in a body after its structure had been parsed.
    TrailingBytes,
    /// The tag byte names no known message.
    UnknownMessage(u8),
    /// The authentication sub-code is not the one supported.
    UnknownAuthentication(i32),
    /// A text field does not hold valid UTF-8.
    InvalidUtf8,
    /// A declared length or count is negative or too small.
    InvalidLength,
}

/// Why a raw value could not be converted to a native one, or a native one
/// to a raw one. Such a failure concerns that one value alone.
#[derive(Clone, Copy, Debug, PartialEq, Eq, Structural)]
pub enum ConversionError {
    /// The value is of a type that the conversion is not for.
    WrongType,
    /// The value is absent where one is required.
    UnexpectedNull,
    /// The raw bytes are too few, too many or ill-formed for the type.
    BadData,
    /// The value lies outside what the other side can hold.
    OutOfRange,
    /// The native value is not well-formed: nanoseconds that are not less
    /// than a second, an array that has not as many elements as its
    /// dimensions say.
    InvalidValue,
}

} // verus!
