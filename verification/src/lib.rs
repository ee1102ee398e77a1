//! A minimal engine for the Protocol-Buffers wire format.
//!
//! The crate turns typed field values into a tag-prefixed byte stream and
//! reads such streams back, tolerating fields it does not know. Every
//! function is verified against a mathematical model of the format: the
//! contracts speak of byte sequences, never of buffers or cursors alone.

pub mod address_book;
pub mod address_book_laws;
pub mod decoder;
pub mod encoder;
pub mod error;
pub mod message;
pub mod roundtrip;
pub mod stream;
pub mod tag;
pub mod text;
pub mod varint;
pub mod wire_type;

pub use decoder::Decoder;
pub use encoder::Encoder;
pub use error::WireError;
pub use message::{
    decode, decode_inner, encode, read_message, write_message, write_repeated, Message,
};
pub use tag::{pack_tag, unpack_tag, MAX_FIELD_NUMBER};
pub use varint::{append_varint, decode_varint, encode_varint};
pub use wire_type::WireType;
