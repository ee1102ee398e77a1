//! The writing half of the engine: an append-only buffer with one operation
//! per kind of field.

use crate::error::WireError;
use crate::tag::{pack_tag, tag_value, MAX_FIELD_NUMBER};
use crate::varint::{append_varint, varint_bytes};
use crate::wire_type::WireType;
use vstd::prelude::*;
use vstd::utf8::encode_utf8;

verus! {

/// The bytes of the tag that opens a field.
pub open spec fn tag_bytes(field_number: u32, wire_type: WireType) -> Seq<u8> {
    varint_bytes(tag_value(field_number, wire_type) as nat)
}

/// The record of a varint-carried scalar: a tag and the value, or nothing at
/// all when the value is zero, the default that is never written.
pub open spec fn tagged_varint_bytes(field_number: u32, wire_type: WireType, value: u64) -> Seq<
    u8,
> {
    if value == 0 {
        Seq::empty()
    } else {
        tag_bytes(field_number, wire_type) + varint_bytes(value as nat)
    }
}

/// A payload behind its length: the length as a varint, then the payload.
pub open spec fn length_prefixed(payload: Seq<u8>) -> Seq<u8> {
    varint_bytes(payload.len()) + payload
}

/// The record of a length-delimited field: a tag, the payload's length as a
/// varint, and the payload itself. An empty payload is still a record.
pub open spec fn length_delimited_bytes(field_number: u32, payload: Seq<u8>) -> Seq<u8> {
    tag_bytes(field_number, WireType::LengthDelimited) + length_prefixed(payload)
}

/// The record of a string field: its UTF-8 bytes, length-delimited, or
/// nothing at all when the string is empty.
pub open spec fn string_bytes(field_number: u32, value: Seq<char>) -> Seq<u8> {
    if value.len() == 0 {
        Seq::empty()
    } else {
        length_delimited_bytes(field_number, encode_utf8(value))
    }
}

/// The 64-bit pattern a signed 32-bit value travels as: its two's-complement
/// sign extension, read as unsigned.
pub open spec fn sign_extended(value: i32) -> u64 {
    if value >= 0 {
        value as u64
    } else {
        (value + 0x1_0000_0000_0000_0000) as u64
    }
}

/// The record of a signed 32-bit field.
pub open spec fn int32_bytes(field_number: u32, value: i32) -> Seq<u8> {
    tagged_varint_bytes(field_number, WireType::Varint, sign_extended(value))
}

/// An output buffer that only grows.
#[derive(Debug)]
pub struct Encoder {
    /// Everything written so far.
    pub encoded: Vec<u8>,
}

impl Encoder {
    /// What a field write leaves behind and reports: `record` appended and
    /// `Ok` when the field number fits a tag, nothing appended and
    /// `FieldNumberOverflow` when it does not.
    pub open spec fn wrote(
        self,
        before: Encoder,
        field_number: u32,
        record: Seq<u8>,
        outcome: Result<(), WireError>,
    ) -> bool {
        if field_number <= MAX_FIELD_NUMBER {
            outcome == Ok::<(), WireError>(()) && self.encoded@ == before.encoded@ + record
        } else {
            outcome == Err::<(), WireError>(WireError::FieldNumberOverflow) && self.encoded@
                == before.encoded@
        }
    }

    /// An encoder that holds no bytes yet.
    pub fn new() -> (encoder: Encoder)
        ensures
            encoder.encoded@ == Seq::<u8>::empty(),
    {
        Encoder { encoded: Vec::new() }
    }

    /// Appends `value` as a bare varint.
    pub fn write_varint(&mut self, value: u64)
        ensures
            final(self).encoded@ == old(self).encoded@ + varint_bytes(value as nat),
    {
        append_varint(&mut self.encoded, value);
    }

    /// Appends the tag for `field_number` and `wire_type`.
    pub fn write_tag(&mut self, field_number: u32, wire_type: WireType) -> (r: Result<
        (),
        WireError,
    >)
        ensures
            final(self).wrote(*old(self), field_number, tag_bytes(field_number, wire_type), r),
    {
        match pack_tag(field_number, wire_type) {
            Ok(tag) => {
                self.write_varint(tag);
                Ok(())
            },
            Err(e) => Err(e),
        }
    }

    /// Appends a tag and a varint, unless `value` is zero: a zero is the
    /// default and leaves no bytes behind.
    pub fn write_tagged_varint(&mut self, field_number: u32, wire_type: WireType, value: u64) -> (r:
        Result<(), WireError>)
        ensures
            final(self).wrote(
                *old(self),
                field_number,
                tagged_varint_bytes(field_number, wire_type, value),
                r,
            ),
    {
        if field_number > MAX_FIELD_NUMBER {
            return Err(WireError::FieldNumberOverflow);
        }
        if value != 0 {
            let _ = self.write_tag(field_number, wire_type);
            self.write_varint(value);
            assert(self.encoded@ =~= old(self).encoded@ + tagged_varint_bytes(
                field_number,
                wire_type,
                value,
            ));
        } else {
            assert(self.encoded@ =~= old(self).encoded@ + Seq::<u8>::empty());
        }
        Ok(())
    }

    /// Appends an unsigned scalar field; a zero value is omitted.
    pub fn write_varint_field(&mut self, field_number: u32, value: u64) -> (r: Result<
        (),
        WireError,
    >)
        ensures
            final(self).wrote(
                *old(self),
                field_number,
                tagged_varint_bytes(field_number, WireType::Varint, value),
                r,
            ),
    {
        self.write_tagged_varint(field_number, WireType::Varint, value)
    }

    /// Appends a length-delimited field: tag, length, payload. The record is
    /// written whatever the payload holds, an empty payload included.
    pub fn write_length_delimited(&mut self, field_number: u32, payload: &[u8]) -> (r: Result<
        (),
        WireError,
    >)
        ensures
            final(self).wrote(
                *old(self),
                field_number,
                length_delimited_bytes(field_number, payload@),
                r,
            ),
    {
        match self.write_tag(field_number, WireType::LengthDelimited) {
            Ok(()) => {},
            Err(e) => {
                return Err(e);
            },
        }
        self.write_varint(payload.len() as u64);
        self.encoded.extend_from_slice(payload);
        assert(self.encoded@ =~= old(self).encoded@ + length_delimited_bytes(
            field_number,
            payload@,
        ));
        Ok(())
    }

    /// Appends a string field as its UTF-8 bytes; an empty string is omitted.
    pub fn write_string(&mut self, field_number: u32, value: &String) -> (r: Result<(), WireError>)
        ensures
            final(self).wrote(*old(self), field_number, string_bytes(field_number, value@), r),
    {
        if field_number > MAX_FIELD_NUMBER {
            return Err(WireError::FieldNumberOverflow);
        }
        let text: &str = value.as_str();
        if text.is_empty() {
            assert(self.encoded@ =~= old(self).encoded@ + Seq::<u8>::empty());
            Ok(())
        } else {
            self.write_length_delimited(field_number, text.as_bytes())
        }
    }

    /// Appends a signed 32-bit field, sign-extended to 64 bits; a zero value
    /// is omitted.
    pub fn write_int32(&mut self, field_number: u32, value: i32) -> (r: Result<(), WireError>)
        ensures
            final(self).wrote(*old(self), field_number, int32_bytes(field_number, value), r),
    {
        let pattern: u64 = #[verifier::truncate] (value as i64 as u64);
        assert(pattern == sign_extended(value)) by (bit_vector)
            requires
                pattern == value as i64 as u64,
        ;
        self.write_varint_field(field_number, pattern)
    }
}

/// A scalar at its default leaves no bytes behind, whatever the field: a
/// zero, signed or unsigned, and the empty string.
pub proof fn defaults_leave_no_bytes(field_number: u32, wire_type: WireType)
    ensures
        tagged_varint_bytes(field_number, wire_type, 0) == Seq::<u8>::empty(),
        int32_bytes(field_number, 0) == Seq::<u8>::empty(),
        string_bytes(field_number, Seq::<char>::empty()) == Seq::<u8>::empty(),
{
}

/// Anything but a default does leave a record: it opens with the field's
/// tag, so it is never empty.
pub proof fn values_leave_a_record(field_number: u32, value: i32, text: Seq<char>)
    ensures
        value != 0 ==> int32_bytes(field_number, value).len() > 0,
        text.len() > 0 ==> string_bytes(field_number, text).len() > 0,
{
    crate::varint::varint_len_bounds(tag_value(field_number, WireType::Varint) as nat);
    crate::varint::varint_len_bounds(tag_value(field_number, WireType::LengthDelimited) as nat);
}

} // verus!
