//! The failures the engine reports.

use vstd::prelude::*;

verus! {

/// Everything that can go wrong while writing or reading the wire format.
#[derive(Clone, Copy, Debug, PartialEq, Eq, Structural)]
pub enum WireError {
    /// A bare varint ran past the end of its buffer.
    UnexpectedEof,
    /// A varint field value, or a length prefix, ran past the end of the buffer.
    MalformedVarint,
    /// The varint that carries a tag ran past the end of the buffer.
    MalformedTag,
    /// A payload announced more bytes than the buffer still holds.
    TruncatedPayload,
    /// A string payload is not valid UTF-8.
    InvalidUtf8,
    /// A wire type the format does not define, or one that does not fit the
    /// field being read.
    UnsupportedWireType,
    /// A field number too large for the 29 bits a tag leaves it.
    FieldNumberOverflow,
}

} // verus!
