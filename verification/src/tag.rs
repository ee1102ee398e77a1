//! Tags: a field number and a wire type packed into one integer.

use crate::error::WireError;
use crate::wire_type::WireType;
use vstd::prelude::*;

verus! {

/// The largest field number a tag has room for: 2^29 - 1.
pub const MAX_FIELD_NUMBER: u32 = 0x1FFF_FFFF;

/// The integer that carries `field_number` and `wire_type`: the field number
/// shifted left by three bits, the wire type in the bits below.
pub open spec fn tag_value(field_number: u32, wire_type: WireType) -> u64 {
    (field_number * 8 + wire_type.raw_spec()) as u64
}

/// The field number a tag carries: everything above its low three bits.
pub open spec fn tag_field_number(raw: u64) -> u64 {
    raw / 8
}

/// The wire type number a tag carries: its low three bits.
pub open spec fn tag_wire_type(raw: u64) -> u32 {
    (raw % 8) as u32
}

/// Packs a field number and a wire type into a tag.
///
/// Field numbers up to `MAX_FIELD_NUMBER` give `field_number << 3 | wire_type`;
/// larger ones do not fit and are refused with `FieldNumberOverflow`.
pub fn pack_tag(field_number: u32, wire_type: WireType) -> (r: Result<u64, WireError>)
    ensures
        field_number <= MAX_FIELD_NUMBER ==> r == Ok::<u64, WireError>(
            tag_value(field_number, wire_type),
        ),
        field_number > MAX_FIELD_NUMBER ==> r == Err::<u64, WireError>(
            WireError::FieldNumberOverflow,
        ),
{
    if field_number > MAX_FIELD_NUMBER {
        return Err(WireError::FieldNumberOverflow);
    }
    let number: u64 = field_number as u64;
    let kind: u64 = wire_type.raw() as u64;
    assert(number <= 0x1FFF_FFFF && kind < 8 ==> (number << 3 | kind) == number * 8 + kind)
        by (bit_vector);
    Ok(number << 3 | kind)
}

/// Splits a tag into its field number and its wire type number.
///
/// Every `u64` is a tag: the field number may be larger than any a schema
/// defines, and the wire type number may be one the format leaves undefined.
pub fn unpack_tag(raw: u64) -> (r: (u64, u32))
    ensures
        r.0 == tag_field_number(raw),
        r.1 == tag_wire_type(raw),
{
    assert(raw >> 3 == raw / 8) by (bit_vector);
    assert(raw & 7 == raw % 8) by (bit_vector);
    (raw >> 3, (raw & 7) as u32)
}

/// Unpacking a packed tag gives back the field number and the wire type, for
/// every field number up to `MAX_FIELD_NUMBER` and every wire type.
pub proof fn tag_round_trip(field_number: u32, wire_type: WireType)
    requires
        field_number <= MAX_FIELD_NUMBER,
    ensures
        tag_field_number(tag_value(field_number, wire_type)) == field_number,
        tag_wire_type(tag_value(field_number, wire_type)) == wire_type.raw_spec(),
        WireType::from_raw_spec(tag_wire_type(tag_value(field_number, wire_type))) == Some(
            wire_type,
        ),
{
}

} // verus!
