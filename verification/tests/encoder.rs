use pbtools::{Encoder, WireError, WireType, MAX_FIELD_NUMBER};

#[test]
fn new_encoder_is_empty() {
    assert!(Encoder::new().encoded.is_empty());
}

#[test]
fn write_string_kalle_kula() {
    let mut encoder = Encoder::new();
    assert_eq!(encoder.write_string(1, &String::from("Kalle Kula")), Ok(()));
    assert_eq!(
        encoder.encoded,
        vec![0x0A, 0x0A, b'K', b'a', b'l', b'l', b'e', b' ', b'K', b'u', b'l', b'a']
    );
}

#[test]
fn write_string_writes_utf8_and_counts_bytes() {
    let mut encoder = Encoder::new();
    assert_eq!(encoder.write_string(2, &String::from("åä€")), Ok(()));
    assert_eq!(encoder.encoded, vec![0x12, 0x07, 0xC3, 0xA5, 0xC3, 0xA4, 0xE2, 0x82, 0xAC]);
}

#[test]
fn write_string_omits_the_empty_string() {
    let mut encoder = Encoder { encoded: vec![0x01] };
    assert_eq!(encoder.write_string(1, &String::new()), Ok(()));
    assert_eq!(encoder.encoded, vec![0x01]);
}

#[test]
fn write_string_with_a_two_byte_length() {
    let text = "x".repeat(300);
    let mut encoder = Encoder::new();
    assert_eq!(encoder.write_string(1, &text), Ok(()));
    assert_eq!(encoder.encoded.len(), 303);
    assert_eq!(&encoder.encoded[..3], &[0x0A, 0xAC, 0x02]);
    assert!(encoder.encoded[3..].iter().all(|b| *b == b'x'));
}

#[test]
fn write_int32_small_value() {
    let mut encoder = Encoder::new();
    assert_eq!(encoder.write_int32(2, 56), Ok(()));
    assert_eq!(encoder.encoded, vec![0x10, 0x38]);
}

#[test]
fn write_int32_omits_zero() {
    let mut encoder = Encoder::new();
    assert_eq!(encoder.write_int32(2, 0), Ok(()));
    assert!(encoder.encoded.is_empty());
}

#[test]
fn write_int32_sign_extends_negative_values() {
    let mut encoder = Encoder::new();
    assert_eq!(encoder.write_int32(2, -1), Ok(()));
    assert_eq!(
        encoder.encoded,
        vec![0x10, 0xFF, 0xFF, 0xFF, 0xFF, 0xFF, 0xFF, 0xFF, 0xFF, 0xFF, 0x01]
    );
    let mut encoder = Encoder::new();
    assert_eq!(encoder.write_int32(1, i32::MIN), Ok(()));
    assert_eq!(
        encoder.encoded,
        vec![0x08, 0x80, 0x80, 0x80, 0x80, 0xF8, 0xFF, 0xFF, 0xFF, 0xFF, 0x01]
    );
}

#[test]
fn write_int32_largest_value() {
    let mut encoder = Encoder::new();
    assert_eq!(encoder.write_int32(1, i32::MAX), Ok(()));
    assert_eq!(encoder.encoded, vec![0x08, 0xFF, 0xFF, 0xFF, 0xFF, 0x07]);
}

#[test]
fn write_varint_field_omits_zero_and_writes_the_rest() {
    let mut encoder = Encoder::new();
    assert_eq!(encoder.write_varint_field(3, 0), Ok(()));
    assert!(encoder.encoded.is_empty());
    assert_eq!(encoder.write_varint_field(3, 300), Ok(()));
    assert_eq!(encoder.encoded, vec![0x18, 0xAC, 0x02]);
}

#[test]
fn write_tagged_varint_uses_the_given_wire_type() {
    let mut encoder = Encoder::new();
    assert_eq!(encoder.write_tagged_varint(1, WireType::LengthDelimited, 10), Ok(()));
    assert_eq!(encoder.encoded, vec![0x0A, 0x0A]);
    assert_eq!(encoder.write_tagged_varint(1, WireType::LengthDelimited, 0), Ok(()));
    assert_eq!(encoder.encoded, vec![0x0A, 0x0A]);
}

#[test]
fn write_tag_and_write_varint_append() {
    let mut encoder = Encoder::new();
    assert_eq!(encoder.write_tag(16, WireType::Varint), Ok(()));
    assert_eq!(encoder.encoded, vec![0x80, 0x01]);
    encoder.write_varint(0);
    assert_eq!(encoder.encoded, vec![0x80, 0x01, 0x00]);
}

#[test]
fn write_length_delimited_frames_the_payload() {
    let mut encoder = Encoder::new();
    assert_eq!(encoder.write_length_delimited(4, &[1, 2, 3]), Ok(()));
    assert_eq!(encoder.encoded, vec![0x22, 0x03, 1, 2, 3]);
}

#[test]
fn write_length_delimited_writes_an_empty_payload() {
    let mut encoder = Encoder::new();
    assert_eq!(encoder.write_length_delimited(4, &[]), Ok(()));
    assert_eq!(encoder.encoded, vec![0x22, 0x00]);
}

#[test]
fn writes_refuse_a_field_number_beyond_29_bits_and_write_nothing() {
    let too_large = MAX_FIELD_NUMBER + 1;
    let mut encoder = Encoder { encoded: vec![0x55] };
    assert_eq!(encoder.write_tag(too_large, WireType::Varint), Err(WireError::FieldNumberOverflow));
    assert_eq!(encoder.write_varint_field(too_large, 1), Err(WireError::FieldNumberOverflow));
    assert_eq!(encoder.write_varint_field(too_large, 0), Err(WireError::FieldNumberOverflow));
    assert_eq!(
        encoder.write_tagged_varint(too_large, WireType::Varint, 1),
        Err(WireError::FieldNumberOverflow)
    );
    assert_eq!(encoder.write_int32(too_large, -5), Err(WireError::FieldNumberOverflow));
    assert_eq!(encoder.write_int32(too_large, 0), Err(WireError::FieldNumberOverflow));
    assert_eq!(
        encoder.write_string(too_large, &String::from("abc")),
        Err(WireError::FieldNumberOverflow)
    );
    assert_eq!(encoder.write_string(too_large, &String::new()), Err(WireError::FieldNumberOverflow));
    assert_eq!(
        encoder.write_length_delimited(too_large, &[1, 2]),
        Err(WireError::FieldNumberOverflow)
    );
    assert_eq!(encoder.encoded, vec![0x55]);
}

#[test]
fn writes_accept_the_largest_field_number() {
    let mut encoder = Encoder::new();
    assert_eq!(encoder.write_int32(MAX_FIELD_NUMBER, 1), Ok(()));
    assert_eq!(encoder.encoded, vec![0xF8, 0xFF, 0xFF, 0xFF, 0x0F, 0x01]);
}
