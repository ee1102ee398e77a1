use pbtools::{pack_tag, unpack_tag, WireError, WireType, MAX_FIELD_NUMBER};

#[test]
fn pack_tag_shifts_the_field_number_by_three() {
    assert_eq!(pack_tag(1, WireType::Varint), Ok(0x08));
    assert_eq!(pack_tag(1, WireType::LengthDelimited), Ok(0x0A));
    assert_eq!(pack_tag(2, WireType::Varint), Ok(0x10));
    assert_eq!(pack_tag(4, WireType::LengthDelimited), Ok(0x22));
    assert_eq!(pack_tag(3, WireType::Bits64), Ok(0x19));
    assert_eq!(pack_tag(3, WireType::Bits32), Ok(0x1D));
}

#[test]
fn pack_tag_takes_the_largest_field_number() {
    assert_eq!(MAX_FIELD_NUMBER, (1 << 29) - 1);
    assert_eq!(pack_tag(MAX_FIELD_NUMBER, WireType::LengthDelimited), Ok(0xFFFF_FFFA));
}

#[test]
fn pack_tag_refuses_field_numbers_beyond_29_bits() {
    assert_eq!(
        pack_tag(MAX_FIELD_NUMBER + 1, WireType::Varint),
        Err(WireError::FieldNumberOverflow)
    );
    assert_eq!(pack_tag(u32::MAX, WireType::LengthDelimited), Err(WireError::FieldNumberOverflow));
}

#[test]
fn unpack_tag_splits_low_three_bits() {
    assert_eq!(unpack_tag(0x0A), (1, 2));
    assert_eq!(unpack_tag(0x10), (2, 0));
    assert_eq!(unpack_tag(0), (0, 0));
    assert_eq!(unpack_tag(7), (0, 7));
}

#[test]
fn unpack_tag_takes_field_numbers_no_schema_defines() {
    assert_eq!(unpack_tag(u64::MAX), ((1 << 61) - 1, 7));
    assert_eq!(unpack_tag((1u64 << 43) | 2), (1 << 40, 2));
}

#[test]
fn tag_round_trip_on_chosen_field_numbers() {
    let wire_types =
        [WireType::Varint, WireType::Bits64, WireType::LengthDelimited, WireType::Bits32];
    let numbers = [1u32, 2, 15, 16, 2047, 2048, 1 << 20, MAX_FIELD_NUMBER - 1, MAX_FIELD_NUMBER];
    for number in numbers {
        for wire_type in wire_types {
            let raw = pack_tag(number, wire_type).unwrap();
            let (field_number, kind) = unpack_tag(raw);
            assert_eq!(field_number, number as u64);
            assert_eq!(kind, wire_type.raw());
            assert_eq!(WireType::from_raw(kind), Some(wire_type));
        }
    }
}

#[test]
fn wire_types_have_their_numbers() {
    assert_eq!(WireType::Varint.raw(), 0);
    assert_eq!(WireType::Bits64.raw(), 1);
    assert_eq!(WireType::LengthDelimited.raw(), 2);
    assert_eq!(WireType::Bits32.raw(), 5);
}

#[test]
fn undefined_wire_type_numbers_name_nothing() {
    assert_eq!(WireType::from_raw(0), Some(WireType::Varint));
    assert_eq!(WireType::from_raw(1), Some(WireType::Bits64));
    assert_eq!(WireType::from_raw(2), Some(WireType::LengthDelimited));
    assert_eq!(WireType::from_raw(5), Some(WireType::Bits32));
    for raw in [3u32, 4, 6, 7, 8, 100, u32::MAX] {
        assert_eq!(WireType::from_raw(raw), None);
    }
}
